use vstd::prelude::*;
use vstd::string::StrSliceExecFns;
use crate::cmd::{add_millis, expire_time_secs, expiry_at};
use crate::resp::{ok_reply, ok_reply_string};
use crate::store::{Record, RecordModel, Store};

verus! {

/// The expiry a SET attaches: seconds win over milliseconds; none means the
/// record never expires.
pub open spec fn set_expiry(ex: Option<u64>, px: Option<u64>, now: u64) -> Option<u64> {
    match ex {
        Some(s) => Some(expiry_at(now, s as nat * 1000)),
        None => match px {
            Some(ms) => Some(expiry_at(now, ms as nat)),
            None => None,
        },
    }
}

/// Effect of SET: upsert the record, overwriting value and expiry.
pub open spec fn set_map(
    m: Map<Seq<char>, RecordModel>,
    k: Seq<char>,
    v: Seq<char>,
    ex: Option<u64>,
    px: Option<u64>,
    now: u64,
) -> Map<Seq<char>, RecordModel> {
    m.insert(k, RecordModel { value: v, expire_at: set_expiry(ex, px, now) })
}

pub struct SetCommand<'a> {
    pub key: &'a str,
    pub value: &'a str,
    pub expire_seconds: Option<u64>,
    pub expire_milliseconds: Option<u64>,
}

impl<'a> SetCommand<'a> {
    pub fn new(
        key: &'a str,
        value: &'a str,
        expire_seconds: Option<u64>,
        expire_milliseconds: Option<u64>,
    ) -> (c: Self)
        ensures
            c.key@ == key@,
            c.value@ == value@,
            c.expire_seconds == expire_seconds,
            c.expire_milliseconds == expire_milliseconds,
    {
        SetCommand { key, value, expire_seconds, expire_milliseconds }
    }

    pub fn execute(&self, store: &mut Store, now: u64) -> (reply: String)
        requires
            old(store).wf(),
        ensures
            final(store).wf(),
            final(store)@ == set_map(
                old(store)@,
                self.key@,
                self.value@,
                self.expire_seconds,
                self.expire_milliseconds,
                now,
            ),
            reply@ == ok_reply(),
    {
        let expire_at: Option<u64> = match self.expire_seconds {
            Some(s) => Some(expire_time_secs(now, s)),
            None => match self.expire_milliseconds {
                Some(ms) => Some(add_millis(now, ms)),
                None => None,
            },
        };
        store.upsert(self.key, Record { value: self.value.to_owned(), expire_at });
        ok_reply_string()
    }
}

} // verus!

use vstd::prelude::*;
use crate::cmd::{expire_time_secs, expiry_at};
use crate::resp::{no_such_key_reply, no_such_key_reply_string, ok_reply, ok_reply_string};
use crate::store::{Record, RecordModel, Store};

verus! {

/// Effect of EXPIRE: if the key is present (its current expiry does not
/// matter), attach a fresh expiry; an absent key is left absent.
pub open spec fn expire_map(
    m: Map<Seq<char>, RecordModel>,
    k: Seq<char>,
    secs: u64,
    now: u64,
) -> Map<Seq<char>, RecordModel> {
    if m.contains_key(k) {
        m.insert(
            k,
            RecordModel { value: m[k].value, expire_at: Some(expiry_at(now, secs as nat * 1000)) },
        )
    } else {
        m
    }
}

/// Reply of EXPIRE: OK when the key was there, the no-such-key error
/// otherwise.
pub open spec fn expire_reply(m: Map<Seq<char>, RecordModel>, k: Seq<char>) -> Seq<char> {
    if m.contains_key(k) {
        ok_reply()
    } else {
        no_such_key_reply()
    }
}

pub struct ExpireCommand<'a> {
    pub key: &'a str,
    pub seconds: u64,
}

impl<'a> ExpireCommand<'a> {
    pub fn new(key: &'a str, seconds: u64) -> (c: Self)
        ensures
            c.key@ == key@,
            c.seconds == seconds,
    {
        ExpireCommand { key, seconds }
    }

    pub fn execute(&self, store: &mut Store, now: u64) -> (reply: String)
        requires
            old(store).wf(),
        ensures
            final(store).wf(),
            final(store)@ == expire_map(old(store)@, self.key@, self.seconds, now),
            reply@ == expire_reply(old(store)@, self.key@),
    {
        let cur: Option<String> = match store.get(self.key) {
            Some(r) => Some(r.value.clone()),
            None => None,
        };
        match cur {
            Some(v) => {
                let t = expire_time_secs(now, self.seconds);
                store.upsert(self.key, Record { value: v, expire_at: Some(t) });
                ok_reply_string()
            }
            None => no_such_key_reply_string(),
        }
    }
}

} // verus!

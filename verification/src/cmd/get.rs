use vstd::prelude::*;
use crate::cmd::expired;
use crate::resp::{bulk_reply, bulk_reply_string, null_bulk_reply, null_bulk_reply_string};
use crate::store::{Record, RecordModel, Store};

verus! {

/// Effect of GET on the store: a record seen to be expired is evicted as
/// part of the read; nothing else changes.
pub open spec fn get_map(m: Map<Seq<char>, RecordModel>, k: Seq<char>, now: u64) -> Map<
    Seq<char>,
    RecordModel,
> {
    if m.contains_key(k) && expired(m[k], now) {
        m.remove(k)
    } else {
        m
    }
}

/// Reply of GET: the stored value as a bulk string, or the null bulk string
/// for an absent or expired key.
pub open spec fn get_reply(m: Map<Seq<char>, RecordModel>, k: Seq<char>, now: u64) -> Seq<char> {
    if m.contains_key(k) && !expired(m[k], now) {
        bulk_reply(m[k].value)
    } else {
        null_bulk_reply()
    }
}

pub struct GetCommand<'a> {
    pub key: &'a str,
}

impl<'a> GetCommand<'a> {
    pub fn new(key: &'a str) -> (c: Self)
        ensures
            c.key@ == key@,
    {
        GetCommand { key }
    }

    pub fn execute(&self, store: &mut Store, now: u64) -> (reply: String)
        requires
            old(store).wf(),
        ensures
            final(store).wf(),
            final(store)@ == get_map(old(store)@, self.key@, now),
            reply@ == get_reply(old(store)@, self.key@, now),
    {
        let cur: Option<Record> = match store.get(self.key) {
            Some(r) => Some(Record { value: r.value.clone(), expire_at: r.expire_at }),
            None => None,
        };
        match cur {
            None => null_bulk_reply_string(),
            Some(r) => {
                let mut is_past = false;
                if let Some(t) = r.expire_at {
                    if now > t {
                        is_past = true;
                    }
                }
                if is_past {
                    let _ = store.remove(self.key);
                    null_bulk_reply_string()
                } else {
                    bulk_reply_string(r.value.as_str())
                }
            }
        }
    }
}

} // verus!

use vstd::prelude::*;
use crate::resp::{int_reply, int_reply_string, uint_reply_string};
use crate::store::{RecordModel, Store};

verus! {

/// Reply of TTL: the remaining whole seconds, floored and never negative,
/// or -1 for an absent key or one with no expiry. No eviction takes place.
pub open spec fn ttl_reply(m: Map<Seq<char>, RecordModel>, k: Seq<char>, now: u64) -> Seq<char> {
    if m.contains_key(k) {
        match m[k].expire_at {
            Some(t) => int_reply(
                if t > now {
                    (t - now) / 1000
                } else {
                    0
                },
            ),
            None => int_reply(-1),
        }
    } else {
        int_reply(-1)
    }
}

pub struct TTLCommand<'a> {
    pub key: &'a str,
}

impl<'a> TTLCommand<'a> {
    pub fn new(key: &'a str) -> (c: Self)
        ensures
            c.key@ == key@,
    {
        TTLCommand { key }
    }

    pub fn execute(&self, store: &Store, now: u64) -> (reply: String)
        requires
            store.wf(),
        ensures
            reply@ == ttl_reply(store@, self.key@, now),
    {
        match store.get(self.key) {
            Some(r) => match r.expire_at {
                Some(t) => {
                    let secs: u64 = if t > now {
                        (t - now) / 1000
                    } else {
                        0
                    };
                    uint_reply_string(secs)
                }
                None => int_reply_string(-1),
            },
            None => int_reply_string(-1),
        }
    }
}

} // verus!

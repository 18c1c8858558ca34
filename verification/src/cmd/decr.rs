use vstd::prelude::*;
use crate::cmd::incr::{counter_expiry, counter_of};
use crate::num::{dec_int_of, i64_to_string, int_of, is_int_literal, parse_i64, u64_to_string};
use crate::resp::{int_reply, int_reply_string, not_integer_reply, not_integer_reply_string};
use crate::store::{Record, RecordModel, Store};

verus! {

/// DECR succeeds when the current text is a decimal 64-bit integer whose
/// predecessor is still one.
pub open spec fn decr_ok(m: Map<Seq<char>, RecordModel>, k: Seq<char>) -> bool {
    let cur = counter_of(m, k);
    is_int_literal(cur) && i64::MIN < int_of(cur) && int_of(cur) <= i64::MAX
}

/// Effect of DECR: store the decremented value as decimal text, keeping the
/// expiry; on failure the store is unchanged.
pub open spec fn decr_map(m: Map<Seq<char>, RecordModel>, k: Seq<char>) -> Map<
    Seq<char>,
    RecordModel,
> {
    if decr_ok(m, k) {
        m.insert(
            k,
            RecordModel {
                value: dec_int_of(int_of(counter_of(m, k)) - 1),
                expire_at: counter_expiry(m, k),
            },
        )
    } else {
        m
    }
}

/// Reply of DECR: the new value, or the integer-format error.
pub open spec fn decr_reply(m: Map<Seq<char>, RecordModel>, k: Seq<char>) -> Seq<char> {
    if decr_ok(m, k) {
        int_reply(int_of(counter_of(m, k)) - 1)
    } else {
        not_integer_reply()
    }
}

pub struct DecrCommand {
    pub key: String,
}

impl DecrCommand {
    pub fn new(key: &str) -> (c: Self)
        ensures
            c.key@ == key@,
    {
        DecrCommand { key: key.to_owned() }
    }

    pub fn execute(&self, store: &mut Store) -> (reply: String)
        requires
            old(store).wf(),
        ensures
            final(store).wf(),
            final(store)@ == decr_map(old(store)@, self.key@),
            reply@ == decr_reply(old(store)@, self.key@),
    {
        let cur: String;
        let exp: Option<u64>;
        match store.get(self.key.as_str()) {
            Some(r) => {
                cur = r.value.clone();
                exp = r.expire_at;
            }
            None => {
                cur = u64_to_string(0);
                exp = None;
            }
        }
        match parse_i64(cur.as_str()) {
            Some(v) => {
                if v > i64::MIN {
                    let nv = v - 1;
                    store.upsert(
                        self.key.as_str(),
                        Record { value: i64_to_string(nv), expire_at: exp },
                    );
                    int_reply_string(nv)
                } else {
                    not_integer_reply_string()
                }
            }
            None => not_integer_reply_string(),
        }
    }
}

} // verus!

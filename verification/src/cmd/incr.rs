use vstd::prelude::*;
use crate::num::{dec_digits_of, dec_int_of, i64_to_string, int_of, is_int_literal, parse_i64,
    u64_to_string};
use crate::resp::{int_reply, int_reply_string, not_integer_reply, not_integer_reply_string};
use crate::store::{Record, RecordModel, Store};

verus! {

/// The text a counter command starts from: the stored value, or "0" for an
/// absent key.
pub open spec fn counter_of(m: Map<Seq<char>, RecordModel>, k: Seq<char>) -> Seq<char> {
    if m.contains_key(k) {
        m[k].value
    } else {
        dec_digits_of(0)
    }
}

/// The expiry a counter command keeps: the stored one, or none for an
/// absent key.
pub open spec fn counter_expiry(m: Map<Seq<char>, RecordModel>, k: Seq<char>) -> Option<u64> {
    if m.contains_key(k) {
        m[k].expire_at
    } else {
        None
    }
}

/// INCR succeeds when the current text is a decimal 64-bit integer whose
/// successor is still one.
pub open spec fn incr_ok(m: Map<Seq<char>, RecordModel>, k: Seq<char>) -> bool {
    let cur = counter_of(m, k);
    is_int_literal(cur) && i64::MIN <= int_of(cur) && int_of(cur) < i64::MAX
}

/// Effect of INCR: store the incremented value as decimal text, keeping the
/// expiry; on failure the store is unchanged.
pub open spec fn incr_map(m: Map<Seq<char>, RecordModel>, k: Seq<char>) -> Map<
    Seq<char>,
    RecordModel,
> {
    if incr_ok(m, k) {
        m.insert(
            k,
            RecordModel {
                value: dec_int_of(int_of(counter_of(m, k)) + 1),
                expire_at: counter_expiry(m, k),
            },
        )
    } else {
        m
    }
}

/// Reply of INCR: the new value, or the integer-format error.
pub open spec fn incr_reply(m: Map<Seq<char>, RecordModel>, k: Seq<char>) -> Seq<char> {
    if incr_ok(m, k) {
        int_reply(int_of(counter_of(m, k)) + 1)
    } else {
        not_integer_reply()
    }
}

pub struct IncrCommand {
    pub key: String,
}

impl IncrCommand {
    pub fn new(key: &str) -> (c: Self)
        ensures
            c.key@ == key@,
    {
        IncrCommand { key: key.to_owned() }
    }

    pub fn execute(&self, store: &mut Store) -> (reply: String)
        requires
            old(store).wf(),
        ensures
            final(store).wf(),
            final(store)@ == incr_map(old(store)@, self.key@),
            reply@ == incr_reply(old(store)@, self.key@),
    {
        let cur: String;
        let exp: Option<u64>;
        match store.get(self.key.as_str()) {
            Some(r) => {
                cur = r.value.clone();
                exp = r.expire_at;
            }
            None => {
                cur = u64_to_string(0);
                exp = None;
            }
        }
        match parse_i64(cur.as_str()) {
            Some(v) => {
                if v < i64::MAX {
                    let nv = v + 1;
                    store.upsert(
                        self.key.as_str(),
                        Record { value: i64_to_string(nv), expire_at: exp },
                    );
                    int_reply_string(nv)
                } else {
                    not_integer_reply_string()
                }
            }
            None => not_integer_reply_string(),
        }
    }
}

} // verus!

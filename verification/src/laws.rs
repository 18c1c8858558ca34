use vstd::prelude::*;
use crate::cmd::decr::{decr_map, decr_ok, decr_reply};
use crate::cmd::exists_cmd::count_present;
use crate::cmd::expire::{expire_map, expire_reply};
use crate::cmd::get::{get_map, get_reply};
use crate::cmd::incr::{counter_of, incr_map, incr_ok, incr_reply};
use crate::cmd::json::{deljson_map, getjson_reply, setjson_map};
use crate::cmd::set::set_map;
use crate::cmd::ttl::ttl_reply;
use crate::cmd::expiry_at;
use crate::num::{dec_int_of, is_int_literal, lemma_dec_int_roundtrip};
use crate::resp::{bulk_reply, int_reply, no_such_key_reply, not_integer_reply, null_bulk_reply};
use crate::store::RecordModel;

verus! {

/// After SET with no expiry, GET returns the value byte for byte, at any
/// later reading of the clock, and leaves the store exactly as the SET
/// left it.
pub proof fn lemma_set_then_get(
    m: Map<Seq<char>, RecordModel>,
    k: Seq<char>,
    v: Seq<char>,
    now: u64,
    later: u64,
)
    ensures
        get_reply(set_map(m, k, v, None, None, now), k, later) == bulk_reply(v),
        get_map(set_map(m, k, v, None, None, now), k, later) == set_map(m, k, v, None, None, now),
{
}

/// A value SET with EX s is returned by GET while the clock has not passed
/// the expiry time, and afterwards GET replies null and evicts the record.
pub proof fn lemma_set_with_ttl(
    m: Map<Seq<char>, RecordModel>,
    k: Seq<char>,
    v: Seq<char>,
    s: u64,
    now: u64,
    t: u64,
)
    requires
        s > 0,
    ensures
        t <= expiry_at(now, s as nat * 1000) ==> get_reply(
            set_map(m, k, v, Some(s), None, now),
            k,
            t,
        ) == bulk_reply(v) && get_map(set_map(m, k, v, Some(s), None, now), k, t) == set_map(
            m,
            k,
            v,
            Some(s),
            None,
            now,
        ),
        t > expiry_at(now, s as nat * 1000) ==> get_reply(
            set_map(m, k, v, Some(s), None, now),
            k,
            t,
        ) == null_bulk_reply() && get_map(set_map(m, k, v, Some(s), None, now), k, t) == set_map(
            m,
            k,
            v,
            Some(s),
            None,
            now,
        ).remove(k),
{
}

/// On an absent key the counter commands act as if the stored text were
/// "0": INCR stores "1" and replies 1, and a DECR right after stores "0"
/// and replies 0.
pub proof fn lemma_incr_decr_absent(m: Map<Seq<char>, RecordModel>, k: Seq<char>)
    requires
        !m.contains_key(k),
    ensures
        incr_reply(m, k) == int_reply(1),
        incr_map(m, k) == m.insert(k, RecordModel { value: dec_int_of(1), expire_at: None }),
        decr_reply(incr_map(m, k), k) == int_reply(0),
        decr_map(incr_map(m, k), k) == incr_map(m, k).insert(
            k,
            RecordModel { value: dec_int_of(0), expire_at: None },
        ),
{
    lemma_dec_int_roundtrip(0);
    assert(counter_of(m, k) == dec_int_of(0));
    assert(incr_ok(m, k));
    let m1 = incr_map(m, k);
    lemma_dec_int_roundtrip(1);
    assert(counter_of(m1, k) == dec_int_of(1));
    assert(decr_ok(m1, k));
}

/// INCR on a key whose text is not a decimal integer replies the
/// integer-format error and changes nothing.
pub proof fn lemma_incr_non_numeric(m: Map<Seq<char>, RecordModel>, k: Seq<char>)
    requires
        m.contains_key(k),
        !is_int_literal(m[k].value),
    ensures
        incr_reply(m, k) == not_integer_reply(),
        incr_map(m, k) == m,
{
}

/// EXPIRE on an absent key replies the no-such-key error and creates no
/// record.
pub proof fn lemma_expire_absent(m: Map<Seq<char>, RecordModel>, k: Seq<char>, secs: u64, now: u64)
    requires
        !m.contains_key(k),
    ensures
        expire_reply(m, k) == no_such_key_reply(),
        expire_map(m, k, secs, now) == m,
{
}

/// TTL replies -1 both for a key with no expiry and for an absent key.
pub proof fn lemma_ttl_no_expiry(m: Map<Seq<char>, RecordModel>, k: Seq<char>, now: u64)
    requires
        !m.contains_key(k) || m[k].expire_at is None,
    ensures
        ttl_reply(m, k, now) == int_reply(-1),
{
}

/// The EXISTS count is additive over the argument list, so a repeated key
/// is counted once for each occurrence.
pub proof fn lemma_exists_additive(
    m: Map<Seq<char>, RecordModel>,
    ks1: Seq<Seq<char>>,
    ks2: Seq<Seq<char>>,
)
    ensures
        count_present(m, ks1 + ks2) == count_present(m, ks1) + count_present(m, ks2),
    decreases ks2.len(),
{
    if ks2.len() == 0 {
        assert(ks1 + ks2 =~= ks1);
    } else {
        lemma_exists_additive(m, ks1, ks2.drop_last());
        assert((ks1 + ks2).drop_last() =~= ks1 + ks2.drop_last());
        assert((ks1 + ks2).last() == ks2.last());
    }
}

/// One key contributes one to the EXISTS count exactly when it is present.
pub proof fn lemma_exists_single(m: Map<Seq<char>, RecordModel>, k: Seq<char>)
    ensures
        count_present(m, seq![k]) == if m.contains_key(k) {
            1nat
        } else {
            0nat
        },
{
    assert(seq![k].drop_last() =~= Seq::<Seq<char>>::empty());
    assert(seq![k].last() == k);
    assert(count_present(m, Seq::<Seq<char>>::empty()) == 0);
}

/// JSON.GET on an absent key is the no-such-key error, whatever the paths.
pub proof fn lemma_json_get_absent(
    m: Map<Seq<char>, RecordModel>,
    k: Seq<char>,
    paths: Seq<Seq<char>>,
)
    requires
        !m.contains_key(k),
    ensures
        getjson_reply(m, k, paths) == no_such_key_reply(),
{
}

/// Issuing the same SET twice, with the same arguments and the same clock
/// reading, leaves the store in exactly the state one SET leaves.
pub proof fn lemma_set_idempotent(
    m: Map<Seq<char>, RecordModel>,
    k: Seq<char>,
    v: Seq<char>,
    ex: Option<u64>,
    px: Option<u64>,
    now: u64,
)
    ensures
        set_map(set_map(m, k, v, ex, px, now), k, v, ex, px, now) == set_map(m, k, v, ex, px, now),
{
    assert(set_map(set_map(m, k, v, ex, px, now), k, v, ex, px, now) =~= set_map(
        m,
        k,
        v,
        ex,
        px,
        now,
    ));
}

/// No command touches the record of a key it was not given: after SET,
/// GET, EXPIRE, INCR or a JSON write addressed to another key, the key's
/// presence and record are what they were. With `lemma_set_then_get` this
/// carries a stored value forward until it is overwritten or deleted.
pub proof fn lemma_other_key_untouched(
    m: Map<Seq<char>, RecordModel>,
    k: Seq<char>,
    k2: Seq<char>,
    v: Seq<char>,
    ex: Option<u64>,
    px: Option<u64>,
    secs: u64,
    now: u64,
    path: Seq<char>,
)
    requires
        k != k2,
    ensures
        set_map(m, k2, v, ex, px, now).contains_key(k) == m.contains_key(k),
        m.contains_key(k) ==> set_map(m, k2, v, ex, px, now)[k] == m[k],
        get_map(m, k2, now).contains_key(k) == m.contains_key(k),
        m.contains_key(k) ==> get_map(m, k2, now)[k] == m[k],
        expire_map(m, k2, secs, now).contains_key(k) == m.contains_key(k),
        m.contains_key(k) ==> expire_map(m, k2, secs, now)[k] == m[k],
        incr_map(m, k2).contains_key(k) == m.contains_key(k),
        m.contains_key(k) ==> incr_map(m, k2)[k] == m[k],
        decr_map(m, k2).contains_key(k) == m.contains_key(k),
        m.contains_key(k) ==> decr_map(m, k2)[k] == m[k],
        setjson_map(m, k2, path, v).contains_key(k) == m.contains_key(k),
        m.contains_key(k) ==> setjson_map(m, k2, path, v)[k] == m[k],
        deljson_map(m, k2).contains_key(k) == m.contains_key(k),
        m.contains_key(k) ==> deljson_map(m, k2)[k] == m[k],
{
}

} // verus!

pub mod decr;
pub mod exists_cmd;
pub mod expire;
pub mod get;
pub mod incr;
pub mod json;
pub mod set;
pub mod ttl;

use vstd::prelude::*;
use crate::store::RecordModel;

verus! {

/// A record is expired at `now` when it carries an expiry strictly in the past.
pub open spec fn expired(r: RecordModel, now: u64) -> bool {
    match r.expire_at {
        Some(t) => now > t,
        None => false,
    }
}

/// now + ms, saturating at the largest representable time.
pub open spec fn expiry_at(now: u64, ms: nat) -> u64 {
    if now + ms > u64::MAX {
        u64::MAX
    } else {
        (now + ms) as u64
    }
}

/// Absolute expiry time `now` + `ms` milliseconds, saturating.
pub fn add_millis(now: u64, ms: u64) -> (t: u64)
    ensures
        t == expiry_at(now, ms as nat),
{
    if ms > u64::MAX - now {
        u64::MAX
    } else {
        now + ms
    }
}

/// Absolute expiry time `now` + `secs` seconds, saturating.
pub fn expire_time_secs(now: u64, secs: u64) -> (t: u64)
    ensures
        t == expiry_at(now, secs as nat * 1000),
{
    if secs > u64::MAX / 1000 {
        proof {
            assert(secs as nat * 1000 > u64::MAX) by (nonlinear_arith)
                requires
                    secs > u64::MAX / 1000,
            {
                assert(secs as nat >= u64::MAX as nat / 1000 + 1);
                assert((u64::MAX as nat / 1000 + 1) * 1000 > u64::MAX as nat);
            }
        }
        u64::MAX
    } else {
        let ms = secs * 1000;
        proof {
            assert(secs as nat * 1000 <= u64::MAX) by (nonlinear_arith)
                requires
                    secs <= u64::MAX / 1000,
            {
                assert(secs as nat * 1000 <= (u64::MAX as nat / 1000) * 1000);
                assert((u64::MAX as nat / 1000) * 1000 <= u64::MAX as nat);
            }
        }
        add_millis(now, ms)
    }
}

} // verus!

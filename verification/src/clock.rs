//! The wall clock, for rule timestamps. The time is outside work, so the
//! library states nothing of which instant comes back.

use vstd::prelude::*;

verus! {

/// Relies on chrono's `Utc::now` and `DateTime::timestamp`: the current
/// time as whole seconds since the Unix epoch. `Utc::now` builds its
/// result from the non-negative duration since the epoch (and panics on a
/// pre-epoch system clock), so a value that comes back is non-negative.
#[verifier::external_body]
pub(crate) fn now_seconds() -> (r: i64)
    ensures
        r >= 0,
{
    chrono::Utc::now().timestamp()
}

} // verus!

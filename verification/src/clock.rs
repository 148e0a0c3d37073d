//! The wall clock, behind one trusted call.
use vstd::prelude::*;

verus! {

/// Relies on chrono::Utc::now for the wall clock, read as whole seconds
/// since the Unix epoch. chrono refuses times outside the epoch-based
/// range before returning, so the reading is non-negative; nothing else is
/// assumed of it.
#[verifier::external_body]
pub fn current_unix_seconds() -> (r: i64)
    ensures
        r >= 0,
{
    chrono::Utc::now().timestamp()
}

} // verus!

use vstd::prelude::*;

verus! {

/// The current unix time in seconds.
/// Relies on chrono::Utc::now / timestamp. Nothing is promised of the value:
/// callers state what holds whatever instant comes back.
#[verifier::external_body]
pub fn unix_now() -> i64 {
    chrono::Utc::now().timestamp()
}

} // verus!

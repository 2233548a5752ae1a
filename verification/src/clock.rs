use vstd::prelude::*;

verus! {

/// Relies on chrono::Utc::now().timestamp(): the wall clock in Unix
/// seconds. Nothing is promised of the value. On a system clock set
/// before 1970 chrono itself aborts the process, so the negative branch
/// below is only a guard.
#[verifier::external_body]
pub fn now_unix_seconds() -> u64 {
    let t = chrono::Utc::now().timestamp();
    if t < 0 {
        0
    } else {
        t as u64
    }
}

} // verus!

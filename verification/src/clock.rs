//! Reading the wall clock.

use vstd::prelude::*;

verus! {

/// Relies on chrono's `Utc::now`: the current wall-clock time, in seconds
/// since the Unix epoch. The value depends on the machine's clock, so
/// nothing is promised of it.
#[verifier::external_body]
pub(crate) fn now_timestamp() -> i64 {
    chrono::Utc::now().timestamp()
}

} // verus!

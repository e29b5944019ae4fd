//! Reading the wall clock.

use vstd::prelude::*;

verus! {

/// Relies on chrono's `Utc::now`: the current time, as whole seconds
/// since the Unix epoch. The result depends on the moment of the call,
/// so nothing is assumed of it.
#[verifier::external_body]
pub(crate) fn now_timestamp() -> i64 {
    chrono::Utc::now().timestamp()
}

} // verus!

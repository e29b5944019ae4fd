//! Failure of one content-provider call: either a business error the
//! provider reported, or a transport failure, kept as its message text.

use vstd::prelude::*;
use crate::moodle::response::MoodleError;

verus! {

/// Why a provider call failed.
#[derive(Debug, Clone)]
pub enum Error {
    /// The provider answered with a business error.
    Moodle(MoodleError),
    /// The call itself failed (network, protocol); the carried string is
    /// the transport error's message.
    Req(String),
}

impl From<MoodleError> for Error {
    fn from(e: MoodleError) -> (r: Self) {
        Error::Moodle(e)
    }
}

impl vstd::std_specs::convert::FromSpecImpl<MoodleError> for Error {
    open spec fn obeys_from_spec() -> bool {
        true
    }

    open spec fn from_spec(e: MoodleError) -> Self {
        Error::Moodle(e)
    }
}

} // verus!

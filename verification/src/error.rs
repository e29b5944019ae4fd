//! The engine's error taxonomy, and the user-facing text of each error.

use vstd::prelude::*;
use vstd::string::StringExecFns;
use crate::moodle;

verus! {

/// Everything that can go wrong in the engine or the stores it drives.
#[derive(Debug, Clone)]
pub enum Error {
    /// A subscribe request for a binding that already exists.
    Duplicated,
    /// An unsubscribe request for a binding that does not exist.
    NotExist,
    /// A content-provider call failed.
    Moodle(moodle::error::Error),
    /// The durable store failed; the carried string is its message.
    Db(String),
    /// Anything else, described by its message.
    Other(String),
}

impl Error {
    /// The text shown to a user for this error. A provider business
    /// error whose code is `invalidtoken` gets its own message, so the
    /// user learns the login expired rather than seeing a raw error.
    pub open spec fn spec_user_message(self) -> Seq<char> {
        match self {
            Error::Duplicated => "The record already exists"@,
            Error::NotExist => "The record does not exist"@,
            Error::Other(s) => s@,
            Error::Db(d) => "Storage error: "@ + d@,
            Error::Moodle(me) => match me {
                moodle::error::Error::Req(e) => "Error communicating with Moodle: "@ + e@,
                moodle::error::Error::Moodle(m) => if m.error_code@ == "invalidtoken"@ {
                    "Moodle login expired"@
                } else {
                    "Moodle error: "@ + m.spec_display_message()
                },
            },
        }
    }

    pub fn user_message(&self) -> (r: String)
        ensures
            r@ == self.spec_user_message(),
    {
        match self {
            Error::Duplicated => "The record already exists".to_owned(),
            Error::NotExist => "The record does not exist".to_owned(),
            Error::Other(s) => s.clone(),
            Error::Db(d) => "Storage error: ".to_owned().concat(d.as_str()),
            Error::Moodle(me) => match me {
                moodle::error::Error::Req(e) => {
                    "Error communicating with Moodle: ".to_owned().concat(e.as_str())
                }
                moodle::error::Error::Moodle(m) => {
                    if m.error_code == "invalidtoken".to_owned() {
                        "Moodle login expired".to_owned()
                    } else {
                        "Moodle error: ".to_owned().concat(m.display_message().as_str())
                    }
                }
            },
        }
    }
}

impl From<moodle::error::Error> for Error {
    fn from(e: moodle::error::Error) -> (r: Self) {
        Error::Moodle(e)
    }
}

impl vstd::std_specs::convert::FromSpecImpl<moodle::error::Error> for Error {
    open spec fn obeys_from_spec() -> bool {
        true
    }

    open spec fn from_spec(e: moodle::error::Error) -> Self {
        Error::Moodle(e)
    }
}

} // verus!

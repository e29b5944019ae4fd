//! Where a notification is delivered: a group conversation or the
//! subscribing user individually.

use vstd::prelude::*;

verus! {

/// A notification target.
#[derive(Clone, Copy, Debug, PartialEq, Eq, Structural)]
pub enum Tenant {
    /// A group conversation, identified by its chat-platform number.
    Group(i64),
    /// The subscribing user, individually.
    SenderSelf,
}

} // verus!

//! The outcome of sending a message.

use vstd::prelude::*;

verus! {

/// Whether a message went out over SMTP or was queued in the outbox for a
/// later retry.
#[derive(Debug, Clone, Copy, PartialEq, Eq, Structural)]
pub enum SendOutcome {
    Sent,
    Queued,
}

} // verus!

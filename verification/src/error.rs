//! The ways in which an operation of the relay is refused.

use vstd::prelude::*;

verus! {

/// Why an operation was refused. A refused operation changes nothing.
#[derive(Clone, Copy, Debug, PartialEq, Eq, Structural)]
pub enum Error {
    /// The caller does not hold the role that the operation asks for.
    Unauthorized,
    /// The caller attests a message and is no validator.
    NotValidator,
    /// Kept for callers that tell a repeated registration of a locker
    /// apart; the relay itself answers a repeat with `Ok(false)`.
    AlreadyRegisterLocker,
    /// Kept for callers that tell a repeated registration of a validator
    /// apart; the relay itself answers a repeat with `Ok(false)`.
    AlreadyRegisterValidator,
    /// The call that executes a message failed; the message is gone.
    ExecuteMessageFailed,
    /// The sequence number lies beyond the next one of its chain.
    FatalSequenceGap,
    /// The validator's latest attestation on the chain was this number.
    AlreadyReceived,
    /// The slot lies behind the validator and is no longer open.
    AlreadyCompleted,
    /// The validator has attested this content in this slot before.
    DuplicateAttestation,
    /// Nothing is stored under the given chain and number.
    NotFound,
}

/// How the attestation of a message went.
#[derive(Clone, Copy, Debug, PartialEq, Eq, Structural)]
pub enum Attestation {
    /// The message waits; so many validators have attested its content.
    Pending(usize),
    /// The attestation completed the quorum; the message can be executed.
    Promoted,
}

} // verus!

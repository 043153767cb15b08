use vstd::prelude::*;

verus! {

/// A 32-byte account identity (a wallet, a creator, an admin), held as two
/// 128-bit halves. Identities are only ever compared for equality.
#[derive(Clone, Copy, Debug, PartialEq, Eq, Structural)]
pub struct Address {
    pub hi: u128,
    pub lo: u128,
}

impl Address {
    pub fn new(hi: u128, lo: u128) -> (a: Address)
        ensures
            a.hi == hi,
            a.lo == lo,
    {
        Address { hi, lo }
    }
}

/// The lifecycle policy a challenge was created with.
///
/// `Strict`: joining waits for `start_time`; claims need an explicit
/// finalize by the admin; the winner set is frozen once the challenge is
/// completed.
///
/// `Permissive`: joining has no start gate; the first claim at or after
/// `end_time` completes the challenge; the admin may resubmit the winner set
/// at any time while the challenge is active.
#[derive(Clone, Copy, Debug, PartialEq, Eq, Structural)]
pub enum LifecycleMode {
    Strict,
    Permissive,
}

/// Every way an operation on a challenge can be refused.
#[derive(Clone, Copy, Debug, PartialEq, Eq, Structural)]
pub enum AccountingError {
    ChallengeCompleted,
    MaxParticipantsReached,
    ChallengeNotActive,
    ChallengeNotEnded,
    ChallengeNotStarted,
    ChallengeNotCompleted,
    AlreadyCompleted,
    NotCompleted,
    AlreadyClaimed,
    UnauthorizedAdmin,
    DuplicateChallenge,
    AlreadyJoined,
    TransferFailed,
    ChallengeNotFound,
    NotJoined,
}

} // verus!

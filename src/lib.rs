//! Escrow-backed staking challenges: a registry of challenges, the ledger of
//! their participants, the attested set of winners, and the settlement rule
//! that splits each pool among those winners.
//!
//! Every operation comes in two halves. A `plan_*` method decides, without
//! changing anything, whether the operation goes ahead and how much value
//! must move. The applying method records the outcome once the host has
//! moved that value, and on refusal leaves every record untouched.

pub mod types;
pub mod settlement;
pub mod challenge;
pub mod registry;
pub mod laws;

pub use challenge::{Challenge, ChallengeBook, CompletedList, Participant};
pub use registry::{
    AdminCompleteChallenge, ClaimReward, CreateChallenge, FinalizeChallenge, JoinChallenge,
    Registry,
};
pub use settlement::calculate_reward;
pub use types::{AccountingError, Address, LifecycleMode};

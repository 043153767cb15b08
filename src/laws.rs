//! Properties that hold across operations of the registry.
use vstd::prelude::*;

use crate::challenge::ChallengeBook;
use crate::registry::Registry;
use crate::types::{AccountingError, Address, LifecycleMode};

verus! {

/// The claim window of a challenge is open at `now`: it is completed
/// (strict lifecycle) or its end time has passed (permissive lifecycle).
pub open spec fn claim_window_open(b: ChallengeBook, now: i64) -> bool {
    &&& b.challenge.mode == LifecycleMode::Strict ==> b.challenge.is_completed
    &&& b.challenge.mode == LifecycleMode::Permissive ==> now >= b.challenge.end_time
}

/// No challenge ever holds more participants than its cap, and none ever
/// holds a ledger entry that is not counted.
pub proof fn participant_count_within_cap(r: Registry, id: Seq<char>)
    requires
        r.wf(),
        r.has(id),
    ensures
        r.book(id).challenge.participant_count <= r.book(id).challenge.max_participants,
        r.book(id).participants@.len() == r.book(id).challenge.participant_count,
{
    assert(r.books@[r.index_of(id)].wf());
}

/// Once a challenge is full, every join is refused; a new wallet joining an
/// open, started challenge is refused with `MaxParticipantsReached`.
pub proof fn join_past_cap_refused(r: Registry, id: Seq<char>, wallet: Address, now: i64)
    requires
        r.wf(),
        r.has(id),
        r.book(id).challenge.participant_count >= r.book(id).challenge.max_participants,
    ensures
        r.join_outcome(id, wallet, now) is Err,
        !r.book(id).has_joined(wallet) && !r.book(id).challenge.is_completed && (
        r.book(id).challenge.mode == LifecycleMode::Strict ==> now >= r.book(id).challenge.start_time)
            ==> r.join_outcome(id, wallet, now) == Err::<u64, AccountingError>(
            AccountingError::MaxParticipantsReached,
        ),
{
}

/// After a wallet has joined a challenge, any further join of that wallet
/// to it is refused with `AlreadyJoined`.
pub proof fn second_join_refused(
    r0: Registry,
    r1: Registry,
    id: Seq<char>,
    wallet: Address,
    later: i64,
)
    requires
        r0.wf(),
        r1.wf(),
        r0.join_step(r1, id, wallet),
    ensures
        r1.join_outcome(id, wallet, later) == Err::<u64, AccountingError>(
            AccountingError::AlreadyJoined,
        ),
{
    let i = r0.index_of(id);
    r1.lemma_index(id, i);
    let b1 = r1.books@[i];
    let n = r0.books@[i].participants@.len() as int;
    assert(b1.participants@[n].authority == wallet);
    assert(b1.has_joined(wallet));
}

/// A challenge is active exactly when its participant count has reached
/// both one and `min_participants`: a join turns it active the first time
/// the count reaches the minimum.
pub proof fn active_iff_minimum_reached(r: Registry, id: Seq<char>)
    requires
        r.wf(),
        r.has(id),
    ensures
        r.book(id).challenge.is_active <==> (r.book(id).challenge.participant_count >= 1
            && r.book(id).challenge.participant_count >= r.book(id).challenge.min_participants),
{
    assert(r.books@[r.index_of(id)].wf());
}

/// A join never turns an active challenge inactive, and makes it active
/// exactly when the new count reaches `min_participants`.
pub proof fn join_activates_at_minimum(r0: Registry, r1: Registry, id: Seq<char>, wallet: Address)
    requires
        r0.wf(),
        r1.wf(),
        r0.join_step(r1, id, wallet),
    ensures
        r1.has(id),
        r1.book(id).challenge.participant_count == r0.book(id).challenge.participant_count + 1,
        r1.book(id).challenge.is_active <==> (r0.book(id).challenge.is_active
            || r1.book(id).challenge.participant_count >= r1.book(id).challenge.min_participants),
        r0.book(id).challenge.is_active ==> r1.book(id).challenge.is_active,
{
    r1.lemma_index(id, r0.index_of(id));
}

/// Submitting winners, finalizing and claiming leave the participant count
/// and the active flag of every challenge as they were.
pub proof fn activity_kept_by_other_steps(
    r0: Registry,
    r1: Registry,
    id: Seq<char>,
    wallet: Address,
    wallets: Seq<Address>,
)
    requires
        r0.wf(),
        r1.wf(),
        r0.submit_step(r1, id, wallets) || r0.finalize_step(r1, id) || r0.claim_step(r1, id, wallet),
    ensures
        r1.has(id),
        r1.book(id).challenge.is_active == r0.book(id).challenge.is_active,
        r1.book(id).challenge.participant_count == r0.book(id).challenge.participant_count,
{
    r1.lemma_index(id, r0.index_of(id));
}

/// A claim before the challenge is completed is refused:
/// `ChallengeNotCompleted` in the strict lifecycle, `ChallengeNotEnded`
/// before `end_time` in the permissive one.
pub proof fn claim_before_completion_refused(r: Registry, id: Seq<char>, wallet: Address, now: i64)
    requires
        r.wf(),
        r.has(id),
        !claim_window_open(r.book(id), now),
    ensures
        r.book(id).challenge.mode == LifecycleMode::Strict ==> r.claim_outcome(id, wallet, now)
            == Err::<u64, AccountingError>(AccountingError::ChallengeNotCompleted),
        r.book(id).challenge.mode == LifecycleMode::Permissive ==> r.claim_outcome(id, wallet, now)
            == Err::<u64, AccountingError>(AccountingError::ChallengeNotEnded),
{
}

/// A wallet that the attestation does not list cannot claim, whether or not
/// it joined and staked: the claim is refused with `NotCompleted` (unless
/// that wallet was already paid, which is refused as `AlreadyClaimed`).
pub proof fn unattested_claim_refused(r: Registry, id: Seq<char>, wallet: Address, now: i64)
    requires
        r.wf(),
        r.has(id),
        claim_window_open(r.book(id), now),
        !r.book(id).is_attested(wallet),
        !r.book(id).has_claimed(wallet),
    ensures
        r.claim_outcome(id, wallet, now) == Err::<u64, AccountingError>(
            AccountingError::NotCompleted,
        ),
{
}

/// After a successful claim, any later claim by the same wallet is refused
/// with `AlreadyClaimed`.
pub proof fn second_claim_refused(
    r0: Registry,
    r1: Registry,
    id: Seq<char>,
    wallet: Address,
    now: i64,
    later: i64,
)
    requires
        r0.wf(),
        r1.wf(),
        r0.claim_outcome(id, wallet, now) is Ok,
        r0.claim_step(r1, id, wallet),
        later >= now,
    ensures
        r1.claim_outcome(id, wallet, later) == Err::<u64, AccountingError>(
            AccountingError::AlreadyClaimed,
        ),
{
    let i = r0.index_of(id);
    r1.lemma_index(id, i);
    let b0 = r0.books@[i];
    let b1 = r1.books@[i];
    let k = b0.participant_index(wallet);
    assert(b1.participants@[k].authority == wallet);
    b1.lemma_index_of_entry(wallet, k);
}

/// A paid wallet stays refused with `AlreadyClaimed` even after the admin
/// resubmits an attestation that still lists it.
pub proof fn second_claim_refused_after_resubmission(
    r0: Registry,
    r1: Registry,
    r2: Registry,
    id: Seq<char>,
    wallet: Address,
    wallets: Seq<Address>,
    now: i64,
    later: i64,
)
    requires
        r0.wf(),
        r1.wf(),
        r2.wf(),
        r0.claim_outcome(id, wallet, now) is Ok,
        r0.claim_step(r1, id, wallet),
        r1.submit_step(r2, id, wallets),
        later >= now,
    ensures
        r2.claim_outcome(id, wallet, later) == Err::<u64, AccountingError>(
            AccountingError::AlreadyClaimed,
        ),
{
    second_claim_refused(r0, r1, id, wallet, now, later);
    let i = r0.index_of(id);
    r1.lemma_index(id, i);
    r2.lemma_index(id, i);
    let b0 = r0.books@[i];
    let b1 = r1.books@[i];
    let b2 = r2.books@[i];
    let k = b0.participant_index(wallet);
    assert(b1.participants@[k].authority == wallet);
    b1.lemma_index_of_entry(wallet, k);
    assert(b2.participants@[k] == b1.participants@[k]);
    b2.lemma_index_of_entry(wallet, k);
}

} // verus!

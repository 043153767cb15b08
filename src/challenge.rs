use vstd::prelude::*;

use crate::settlement::{calculate_reward, reward_spec};
use crate::types::{AccountingError, Address, LifecycleMode};

verus! {

/// The lifecycle record of one challenge.
pub struct Challenge {
    /// Who created the challenge (informational).
    pub authority: Address,
    /// Who may attest winners and finalize the challenge.
    pub admin: Address,
    pub challenge_id: String,
    pub mode: LifecycleMode,
    /// What every participant contributes; fixed at creation.
    pub stake_amount: u64,
    pub start_time: i64,
    pub end_time: i64,
    pub min_participants: u8,
    pub max_participants: u8,
    pub participant_count: u8,
    /// Sum of all stakes contributed so far.
    pub total_stake: u64,
    pub is_active: bool,
    pub is_completed: bool,
}

/// One wallet's entry in a challenge.
#[derive(Clone, Copy, Debug, PartialEq, Eq, Structural)]
pub struct Participant {
    /// The participant's wallet.
    pub authority: Address,
    /// The stake copied from the challenge when the wallet joined.
    pub stake_amount: u64,
    pub completed: bool,
    pub claimed: bool,
}

/// The admin's attestation: the wallets judged to have completed.
pub struct CompletedList {
    pub wallets: Vec<Address>,
    pub is_processed: bool,
}

/// A challenge together with its participant ledger and its attestation.
pub struct ChallengeBook {
    pub challenge: Challenge,
    pub participants: Vec<Participant>,
    pub completed_list: CompletedList,
}

/// The record of a challenge that was just created.
pub open spec fn initial_challenge(
    authority: Address,
    admin: Address,
    challenge_id: String,
    mode: LifecycleMode,
    stake_amount: u64,
    start_time: i64,
    end_time: i64,
    min_participants: u8,
    max_participants: u8,
) -> Challenge {
    Challenge {
        authority,
        admin,
        challenge_id,
        mode,
        stake_amount,
        start_time,
        end_time,
        min_participants,
        max_participants,
        participant_count: 0,
        total_stake: 0,
        is_active: false,
        is_completed: false,
    }
}

/// The challenge record after one more participant has staked.
pub open spec fn joined_challenge(c: Challenge) -> Challenge {
    let n = (c.participant_count + 1) as u8;
    Challenge {
        participant_count: n,
        total_stake: (c.total_stake + c.stake_amount) as u64,
        is_active: c.is_active || n >= c.min_participants,
        ..c
    }
}

/// The challenge record once it is completed.
pub open spec fn completed_challenge(c: Challenge) -> Challenge {
    Challenge { is_completed: true, ..c }
}

/// A participant record once its reward has been paid.
pub open spec fn claimed_participant(p: Participant) -> Participant {
    Participant { completed: true, claimed: true, ..p }
}

impl ChallengeBook {
    pub open spec fn has_joined(self, wallet: Address) -> bool {
        exists|k: int|
            0 <= k < self.participants@.len() && (#[trigger] self.participants@[k]).authority
                == wallet
    }

    /// Where `wallet`'s record stands in the ledger (meaningful when it has joined).
    pub open spec fn participant_index(self, wallet: Address) -> int {
        choose|k: int|
            0 <= k < self.participants@.len() && (#[trigger] self.participants@[k]).authority
                == wallet
    }

    pub open spec fn has_claimed(self, wallet: Address) -> bool {
        self.has_joined(wallet) && self.participants@[self.participant_index(wallet)].claimed
    }

    pub open spec fn is_attested(self, wallet: Address) -> bool {
        self.completed_list.wallets@.contains(wallet)
    }

    pub open spec fn winner_count(self) -> nat {
        self.completed_list.wallets@.len()
    }

    /// The bookkeeping invariant of a challenge.
    pub open spec fn wf(self) -> bool {
        let c = self.challenge;
        let ps = self.participants@;
        &&& c.participant_count <= c.max_participants
        &&& ps.len() == c.participant_count as int
        &&& c.total_stake as int == c.participant_count as int * c.stake_amount as int
        &&& c.is_active <==> (c.participant_count >= 1 && c.participant_count >= c.min_participants)
        &&& forall|a: int, b: int|
            0 <= a < ps.len() && 0 <= b < ps.len() && a != b ==> (#[trigger] ps[a]).authority
                != (#[trigger] ps[b]).authority
        &&& forall|k: int|
            0 <= k < ps.len() ==> (#[trigger] ps[k]).stake_amount == c.stake_amount && (
            ps[k].claimed ==> ps[k].completed && c.is_completed)
    }

    /// One more stake would still fit in the pool counter.
    pub open spec fn stake_fits(self) -> bool {
        self.challenge.total_stake + self.challenge.stake_amount <= u64::MAX
    }

    /// What joining `wallet` at time `now` yields: the amount it must
    /// deposit, or why it is refused.
    pub open spec fn join_outcome(self, wallet: Address, now: i64) -> Result<u64, AccountingError> {
        let c = self.challenge;
        if self.has_joined(wallet) {
            Err(AccountingError::AlreadyJoined)
        } else if c.is_completed {
            Err(AccountingError::ChallengeCompleted)
        } else if c.mode == LifecycleMode::Strict && now < c.start_time {
            Err(AccountingError::ChallengeNotStarted)
        } else if c.participant_count >= c.max_participants {
            Err(AccountingError::MaxParticipantsReached)
        } else {
            Ok(c.stake_amount)
        }
    }

    pub open spec fn join_step(self, next: ChallengeBook, wallet: Address) -> bool {
        &&& next.challenge == joined_challenge(self.challenge)
        &&& next.participants@ == self.participants@.push(
            Participant {
                authority: wallet,
                stake_amount: self.challenge.stake_amount,
                completed: false,
                claimed: false,
            },
        )
        &&& next.completed_list == self.completed_list
    }

    /// Whether `caller` may now (re)submit the set of winners.
    pub open spec fn submit_outcome(self, caller: Address) -> Result<(), AccountingError> {
        let c = self.challenge;
        if caller != c.admin {
            Err(AccountingError::UnauthorizedAdmin)
        } else if !c.is_active {
            Err(AccountingError::ChallengeNotActive)
        } else if c.mode == LifecycleMode::Strict && c.is_completed {
            Err(AccountingError::ChallengeCompleted)
        } else {
            Ok(())
        }
    }

    pub open spec fn submit_step(self, next: ChallengeBook, wallets: Seq<Address>) -> bool {
        &&& next.challenge == self.challenge
        &&& next.participants == self.participants
        &&& next.completed_list.wallets@ == wallets
        &&& !next.completed_list.is_processed
    }

    /// Whether `caller` may finalize the challenge at time `now`.
    pub open spec fn finalize_outcome(self, caller: Address, now: i64) -> Result<(), AccountingError> {
        let c = self.challenge;
        if caller != c.admin {
            Err(AccountingError::UnauthorizedAdmin)
        } else if c.is_completed {
            Err(AccountingError::ChallengeCompleted)
        } else if !c.is_active {
            Err(AccountingError::ChallengeNotActive)
        } else if now < c.end_time {
            Err(AccountingError::ChallengeNotEnded)
        } else {
            Ok(())
        }
    }

    pub open spec fn finalize_step(self, next: ChallengeBook) -> bool {
        &&& next.challenge == completed_challenge(self.challenge)
        &&& next.participants == self.participants
        &&& next.completed_list == self.completed_list
    }

    /// What a claim by `wallet` at time `now` yields: its payout, or why it
    /// is refused.
    pub open spec fn claim_outcome(self, wallet: Address, now: i64) -> Result<u64, AccountingError> {
        let c = self.challenge;
        if c.mode == LifecycleMode::Strict && !c.is_completed {
            Err(AccountingError::ChallengeNotCompleted)
        } else if c.mode == LifecycleMode::Permissive && now < c.end_time {
            Err(AccountingError::ChallengeNotEnded)
        } else if self.has_claimed(wallet) {
            Err(AccountingError::AlreadyClaimed)
        } else if !self.is_attested(wallet) {
            Err(AccountingError::NotCompleted)
        } else if !self.has_joined(wallet) {
            Err(AccountingError::NotJoined)
        } else {
            Ok(reward_spec(c.total_stake, self.winner_count()))
        }
    }

    pub open spec fn claim_step(self, next: ChallengeBook, wallet: Address) -> bool {
        let k = self.participant_index(wallet);
        &&& next.challenge == completed_challenge(self.challenge)
        &&& next.participants@ == self.participants@.update(
            k,
            claimed_participant(self.participants@[k]),
        )
        &&& next.completed_list == self.completed_list
    }

    /// Distinct ledger entries belong to distinct wallets, so a wallet's
    /// entry is the one `participant_index` names.
    pub proof fn lemma_index_of_entry(self, wallet: Address, k: int)
        requires
            self.wf(),
            0 <= k < self.participants@.len(),
            self.participants@[k].authority == wallet,
        ensures
            self.has_joined(wallet),
            self.participant_index(wallet) == k,
            self.has_claimed(wallet) == self.participants@[k].claimed,
    {
        let j = self.participant_index(wallet);
        assert(self.participants@[j].authority == wallet);
    }

    /// A new challenge with no participants and no attested winners.
    pub fn new(
        authority: Address,
        admin: Address,
        challenge_id: String,
        mode: LifecycleMode,
        stake_amount: u64,
        start_time: i64,
        end_time: i64,
        min_participants: u8,
        max_participants: u8,
    ) -> (book: ChallengeBook)
        ensures
            book.wf(),
            book.challenge == initial_challenge(
                authority,
                admin,
                challenge_id,
                mode,
                stake_amount,
                start_time,
                end_time,
                min_participants,
                max_participants,
            ),
            book.participants@ == Seq::<Participant>::empty(),
            book.completed_list.wallets@ == Seq::<Address>::empty(),
            !book.completed_list.is_processed,
    {
        let challenge = Challenge {
            authority,
            admin,
            challenge_id,
            mode,
            stake_amount,
            start_time,
            end_time,
            min_participants,
            max_participants,
            participant_count: 0,
            total_stake: 0,
            is_active: false,
            is_completed: false,
        };
        ChallengeBook {
            challenge,
            participants: Vec::new(),
            completed_list: CompletedList { wallets: Vec::new(), is_processed: false },
        }
    }

    /// The position of `wallet`'s ledger entry, if it has joined.
    pub fn find_participant(&self, wallet: Address) -> (r: Option<usize>)
        ensures
            match r {
                Some(k) => k < self.participants@.len() && self.participants@[k as int].authority
                    == wallet,
                None => !self.has_joined(wallet),
            },
    {
        let mut k: usize = 0;
        while k < self.participants.len()
            invariant
                k <= self.participants@.len(),
                forall|j: int| 0 <= j < k ==> (#[trigger] self.participants@[j]).authority != wallet,
            decreases self.participants@.len() - k,
        {
            if self.participants[k].authority == wallet {
                return Some(k);
            }
            k += 1;
        }
        None
    }

    /// Whether the current attestation lists `wallet`.
    pub fn attests(&self, wallet: Address) -> (r: bool)
        ensures
            r == self.is_attested(wallet),
    {
        let mut k: usize = 0;
        while k < self.completed_list.wallets.len()
            invariant
                k <= self.completed_list.wallets@.len(),
                forall|j: int| 0 <= j < k ==> self.completed_list.wallets@[j] != wallet,
            decreases self.completed_list.wallets@.len() - k,
        {
            if self.completed_list.wallets[k] == wallet {
                assert(self.completed_list.wallets@[k as int] == wallet);
                return true;
            }
            k += 1;
        }
        false
    }
}


impl ChallengeBook {
    /// Decides whether `wallet` may join at time `now`, without changing
    /// anything; on success it gives the amount to deposit into the vault.
    pub fn plan_join(&self, wallet: Address, now: i64) -> (r: Result<u64, AccountingError>)
        requires
            self.wf(),
        ensures
            r == self.join_outcome(wallet, now),
    {
        if self.find_participant(wallet).is_some() {
            return Err(AccountingError::AlreadyJoined);
        }
        let c = &self.challenge;
        if c.is_completed {
            return Err(AccountingError::ChallengeCompleted);
        }
        if c.mode == LifecycleMode::Strict && now < c.start_time {
            return Err(AccountingError::ChallengeNotStarted);
        }
        if c.participant_count >= c.max_participants {
            return Err(AccountingError::MaxParticipantsReached);
        }
        Ok(c.stake_amount)
    }

    /// Records `wallet` as a participant once its stake has reached the
    /// vault: the counters grow, and the challenge becomes active when the
    /// count reaches `min_participants`. On refusal nothing changes.
    pub fn join(&mut self, wallet: Address, now: i64) -> (r: Result<u64, AccountingError>)
        requires
            old(self).wf(),
            old(self).join_outcome(wallet, now) is Ok ==> old(self).stake_fits(),
        ensures
            final(self).wf(),
            r == old(self).join_outcome(wallet, now),
            r is Ok ==> old(self).join_step(*final(self), wallet),
            r is Err ==> *final(self) == *old(self),
    {
        let r = self.plan_join(wallet, now);
        if r.is_err() {
            return r;
        }
        let ghost before = *self;
        let stake = self.challenge.stake_amount;
        self.participants.push(
            Participant { authority: wallet, stake_amount: stake, completed: false, claimed: false },
        );
        let n = self.challenge.participant_count + 1;
        self.challenge.participant_count = n;
        self.challenge.total_stake = self.challenge.total_stake + stake;
        if n >= self.challenge.min_participants {
            self.challenge.is_active = true;
        }
        proof {
            let c0 = before.challenge;
            assert((c0.participant_count as int + 1) * c0.stake_amount as int
                == c0.participant_count as int * c0.stake_amount as int + c0.stake_amount as int)
                by (nonlinear_arith);
            let ps = self.participants@;
            assert forall|a: int, b: int|
                0 <= a < ps.len() && 0 <= b < ps.len() && a != b implies (#[trigger] ps[a]).authority
                != (#[trigger] ps[b]).authority by {
                if a < before.participants@.len() && b < before.participants@.len() {
                    assert(ps[a] == before.participants@[a]);
                    assert(ps[b] == before.participants@[b]);
                } else if a < before.participants@.len() {
                    assert(ps[a] == before.participants@[a]);
                } else {
                    assert(ps[b] == before.participants@[b]);
                }
            }
            assert forall|k: int| 0 <= k < ps.len() implies (#[trigger] ps[k]).stake_amount
                == self.challenge.stake_amount && (ps[k].claimed ==> ps[k].completed
                && self.challenge.is_completed) by {
                if k < before.participants@.len() {
                    assert(ps[k] == before.participants@[k]);
                }
            }
        }
        r
    }

    /// Replaces the attested set of winners with `wallets`.
    pub fn submit(&mut self, caller: Address, wallets: Vec<Address>) -> (r: Result<(), AccountingError>)
        requires
            old(self).wf(),
        ensures
            final(self).wf(),
            r == old(self).submit_outcome(caller),
            r is Ok ==> old(self).submit_step(*final(self), wallets@),
            r is Err ==> *final(self) == *old(self),
    {
        let c = &self.challenge;
        if caller != c.admin {
            return Err(AccountingError::UnauthorizedAdmin);
        }
        if !c.is_active {
            return Err(AccountingError::ChallengeNotActive);
        }
        if c.mode == LifecycleMode::Strict && c.is_completed {
            return Err(AccountingError::ChallengeCompleted);
        }
        self.completed_list = CompletedList { wallets, is_processed: false };
        Ok(())
    }

    /// Marks the challenge completed by the admin's decision.
    pub fn finalize(&mut self, caller: Address, now: i64) -> (r: Result<(), AccountingError>)
        requires
            old(self).wf(),
        ensures
            final(self).wf(),
            r == old(self).finalize_outcome(caller, now),
            r is Ok ==> old(self).finalize_step(*final(self)),
            r is Err ==> *final(self) == *old(self),
    {
        let c = &self.challenge;
        if caller != c.admin {
            return Err(AccountingError::UnauthorizedAdmin);
        }
        if c.is_completed {
            return Err(AccountingError::ChallengeCompleted);
        }
        if !c.is_active {
            return Err(AccountingError::ChallengeNotActive);
        }
        if now < c.end_time {
            return Err(AccountingError::ChallengeNotEnded);
        }
        self.challenge.is_completed = true;
        Ok(())
    }

    /// Decides a claim by `wallet` at time `now` without changing anything;
    /// on success it gives the payout to send from the vault.
    pub fn plan_claim(&self, wallet: Address, now: i64) -> (r: Result<u64, AccountingError>)
        requires
            self.wf(),
        ensures
            r == self.claim_outcome(wallet, now),
    {
        let c = &self.challenge;
        if c.mode == LifecycleMode::Strict && !c.is_completed {
            return Err(AccountingError::ChallengeNotCompleted);
        }
        if c.mode == LifecycleMode::Permissive && now < c.end_time {
            return Err(AccountingError::ChallengeNotEnded);
        }
        let found = self.find_participant(wallet);
        if let Some(k) = found {
            proof {
                self.lemma_index_of_entry(wallet, k as int);
            }
            if self.participants[k].claimed {
                return Err(AccountingError::AlreadyClaimed);
            }
        }
        if !self.attests(wallet) {
            return Err(AccountingError::NotCompleted);
        }
        if found.is_none() {
            return Err(AccountingError::NotJoined);
        }
        let winners = self.completed_list.wallets.len() as u64;
        Ok(calculate_reward(c.total_stake, winners))
    }

    /// Settles a claim once its payout has left the vault: the challenge is
    /// completed and the participant is marked as paid. On refusal nothing
    /// changes.
    pub fn claim(&mut self, wallet: Address, now: i64) -> (r: Result<u64, AccountingError>)
        requires
            old(self).wf(),
        ensures
            final(self).wf(),
            r == old(self).claim_outcome(wallet, now),
            r is Ok ==> old(self).claim_step(*final(self), wallet),
            r is Err ==> *final(self) == *old(self),
    {
        let r = self.plan_claim(wallet, now);
        if r.is_err() {
            return r;
        }
        let k = match self.find_participant(wallet) {
            Some(k) => k,
            None => {
                return r;
            },
        };
        proof {
            self.lemma_index_of_entry(wallet, k as int);
        }
        let ghost before = *self;
        let mut p = self.participants[k];
        p.completed = true;
        p.claimed = true;
        self.participants.set(k, p);
        self.challenge.is_completed = true;
        proof {
            let ps = self.participants@;
            assert(ps == before.participants@.update(k as int, claimed_participant(before.participants@[k as int])));
            assert forall|a: int, b: int|
                0 <= a < ps.len() && 0 <= b < ps.len() && a != b implies (#[trigger] ps[a]).authority
                != (#[trigger] ps[b]).authority by {
                assert(ps[a].authority == before.participants@[a].authority);
                assert(ps[b].authority == before.participants@[b].authority);
            }
            assert forall|j: int| 0 <= j < ps.len() implies (#[trigger] ps[j]).stake_amount
                == self.challenge.stake_amount && (ps[j].claimed ==> ps[j].completed
                && self.challenge.is_completed) by {
                if j != k {
                    assert(ps[j] == before.participants@[j]);
                }
            }
        }
        r
    }
}

} // verus!

use vstd::prelude::*;

use crate::challenge::{initial_challenge, ChallengeBook, Participant};
use crate::types::{AccountingError, Address, LifecycleMode};

verus! {

/// Who creates a challenge, who administers it, and under which lifecycle.
pub struct CreateChallenge {
    pub authority: Address,
    pub admin: Address,
    pub mode: LifecycleMode,
}

/// A wallet asking to join a challenge at time `now`.
pub struct JoinChallenge {
    pub challenge_id: String,
    pub participant_authority: Address,
    pub now: i64,
}

/// A caller submitting the set of wallets that completed a challenge.
pub struct AdminCompleteChallenge {
    pub challenge_id: String,
    pub admin: Address,
}

/// A caller asking to finalize a challenge at time `now`.
pub struct FinalizeChallenge {
    pub challenge_id: String,
    pub admin: Address,
    pub now: i64,
}

/// A wallet claiming its reward from a challenge at time `now`.
pub struct ClaimReward {
    pub challenge_id: String,
    pub participant_authority: Address,
    pub now: i64,
}

/// Every challenge, each with its ledger and attestation, keyed by its id.
pub struct Registry {
    pub books: Vec<ChallengeBook>,
}

impl Registry {
    pub open spec fn id_at(self, i: int) -> Seq<char> {
        self.books@[i].challenge.challenge_id@
    }

    pub open spec fn has(self, id: Seq<char>) -> bool {
        exists|i: int| 0 <= i < self.books@.len() && #[trigger] self.id_at(i) == id
    }

    /// Where the challenge `id` stands (meaningful when it exists).
    pub open spec fn index_of(self, id: Seq<char>) -> int {
        choose|i: int| 0 <= i < self.books@.len() && #[trigger] self.id_at(i) == id
    }

    pub open spec fn book(self, id: Seq<char>) -> ChallengeBook {
        self.books@[self.index_of(id)]
    }

    /// Ids are unique and every challenge keeps its own invariant.
    pub open spec fn wf(self) -> bool {
        &&& forall|i: int| 0 <= i < self.books@.len() ==> (#[trigger] self.books@[i]).wf()
        &&& forall|a: int, b: int|
            0 <= a < self.books@.len() && 0 <= b < self.books@.len() && a != b
                ==> #[trigger] self.id_at(a) != #[trigger] self.id_at(b)
    }

    /// `next` differs from `self` at most in the challenge `id`.
    pub open spec fn same_except(self, next: Registry, id: Seq<char>) -> bool {
        &&& self.has(id)
        &&& next.books@.len() == self.books@.len()
        &&& forall|j: int|
            0 <= j < self.books@.len() && j != self.index_of(id) ==> #[trigger] next.books@[j]
                == self.books@[j]
    }

    pub open spec fn next_book(self, next: Registry, id: Seq<char>) -> ChallengeBook {
        next.books@[self.index_of(id)]
    }

    pub open spec fn create_outcome(self, id: Seq<char>) -> Result<(), AccountingError> {
        if self.has(id) {
            Err(AccountingError::DuplicateChallenge)
        } else {
            Ok(())
        }
    }

    pub open spec fn join_outcome(self, id: Seq<char>, wallet: Address, now: i64) -> Result<
        u64,
        AccountingError,
    > {
        if !self.has(id) {
            Err(AccountingError::ChallengeNotFound)
        } else {
            self.book(id).join_outcome(wallet, now)
        }
    }

    pub open spec fn submit_outcome(self, id: Seq<char>, caller: Address) -> Result<
        (),
        AccountingError,
    > {
        if !self.has(id) {
            Err(AccountingError::ChallengeNotFound)
        } else {
            self.book(id).submit_outcome(caller)
        }
    }

    pub open spec fn finalize_outcome(self, id: Seq<char>, caller: Address, now: i64) -> Result<
        (),
        AccountingError,
    > {
        if !self.has(id) {
            Err(AccountingError::ChallengeNotFound)
        } else {
            self.book(id).finalize_outcome(caller, now)
        }
    }

    pub open spec fn claim_outcome(self, id: Seq<char>, wallet: Address, now: i64) -> Result<
        u64,
        AccountingError,
    > {
        if !self.has(id) {
            Err(AccountingError::ChallengeNotFound)
        } else {
            self.book(id).claim_outcome(wallet, now)
        }
    }

    pub open spec fn join_step(self, next: Registry, id: Seq<char>, wallet: Address) -> bool {
        self.same_except(next, id) && self.book(id).join_step(self.next_book(next, id), wallet)
    }

    pub open spec fn submit_step(self, next: Registry, id: Seq<char>, wallets: Seq<Address>) -> bool {
        self.same_except(next, id) && self.book(id).submit_step(self.next_book(next, id), wallets)
    }

    pub open spec fn finalize_step(self, next: Registry, id: Seq<char>) -> bool {
        self.same_except(next, id) && self.book(id).finalize_step(self.next_book(next, id))
    }

    pub open spec fn claim_step(self, next: Registry, id: Seq<char>, wallet: Address) -> bool {
        self.same_except(next, id) && self.book(id).claim_step(self.next_book(next, id), wallet)
    }

    /// The stake of one more participant of `id` still fits in its pool counter.
    pub open spec fn stake_fits(self, id: Seq<char>) -> bool {
        self.has(id) ==> self.book(id).stake_fits()
    }

    /// With unique ids, the challenge found at `i` is the one `index_of` names.
    pub proof fn lemma_index(self, id: Seq<char>, i: int)
        requires
            self.wf(),
            0 <= i < self.books@.len(),
            self.id_at(i) == id,
        ensures
            self.has(id),
            self.index_of(id) == i,
    {
        assert(self.id_at(i) == id);
        let j = self.index_of(id);
        assert(self.id_at(j) == id);
    }

    /// An empty registry.
    pub fn new() -> (r: Registry)
        ensures
            r.wf(),
            r.books@ == Seq::<ChallengeBook>::empty(),
    {
        Registry { books: Vec::new() }
    }

    /// The position of the challenge `id`, if there is one.
    pub fn find(&self, id: &String) -> (r: Option<usize>)
        requires
            self.wf(),
        ensures
            match r {
                Some(i) => i < self.books@.len() && self.id_at(i as int) == id@ && self.has(id@)
                    && self.index_of(id@) == i,
                None => !self.has(id@),
            },
    {
        let mut i: usize = 0;
        while i < self.books.len()
            invariant
                self.wf(),
                i <= self.books@.len(),
                forall|j: int| 0 <= j < i ==> #[trigger] self.id_at(j) != id@,
            decreases self.books@.len() - i,
        {
            if self.books[i].challenge.challenge_id == *id {
                proof {
                    self.lemma_index(id@, i as int);
                }
                return Some(i);
            }
            i += 1;
        }
        None
    }

    /// The challenge `id` with its ledger and attestation, if there is one.
    pub fn book_of(&self, id: &String) -> (r: Option<&ChallengeBook>)
        requires
            self.wf(),
        ensures
            match r {
                Some(b) => self.has(id@) && *b == self.book(id@),
                None => !self.has(id@),
            },
    {
        match self.find(id) {
            Some(i) => Some(&self.books[i]),
            None => None,
        }
    }
}


impl Registry {
    /// Changing one challenge in a way that keeps its id and its own
    /// invariant keeps the registry well formed.
    pub proof fn lemma_replace_keeps_wf(self, next: Registry, i: int)
        requires
            self.wf(),
            0 <= i < self.books@.len(),
            next.books@.len() == self.books@.len(),
            next.books@[i].wf(),
            next.id_at(i) == self.id_at(i),
            forall|j: int| 0 <= j < self.books@.len() && j != i ==> #[trigger] next.books@[j] == self.books@[j],
        ensures
            next.wf(),
    {
        assert forall|a: int, b: int|
            0 <= a < next.books@.len() && 0 <= b < next.books@.len() && a != b
                implies #[trigger] next.id_at(a) != #[trigger] next.id_at(b) by {
            assert(next.id_at(a) == self.id_at(a));
            assert(next.id_at(b) == self.id_at(b));
        }
        assert forall|j: int| 0 <= j < next.books@.len() implies (#[trigger] next.books@[j]).wf() by {
            if j != i {
                assert(next.books@[j] == self.books@[j]);
            }
        }
    }

    /// Opens a new challenge `challenge_id`, refused when that id is taken.
    pub fn create_challenge(
        &mut self,
        ctx: &CreateChallenge,
        challenge_id: String,
        stake_amount: u64,
        start_time: i64,
        end_time: i64,
        min_participants: u8,
        max_participants: u8,
    ) -> (r: Result<(), AccountingError>)
        requires
            old(self).wf(),
        ensures
            final(self).wf(),
            r == old(self).create_outcome(challenge_id@),
            r is Ok ==> {
                let n = old(self).books@.len();
                let b = final(self).books@[n as int];
                &&& final(self).books@.len() == n + 1
                &&& final(self).books@.subrange(0, n as int) == old(self).books@
                &&& b.challenge == initial_challenge(
                    ctx.authority,
                    ctx.admin,
                    challenge_id,
                    ctx.mode,
                    stake_amount,
                    start_time,
                    end_time,
                    min_participants,
                    max_participants,
                )
                &&& b.participants@ == Seq::<Participant>::empty()
                &&& b.completed_list.wallets@ == Seq::<Address>::empty()
            },
            r is Err ==> final(self).books@ == old(self).books@,
    {
        if self.find(&challenge_id).is_some() {
            return Err(AccountingError::DuplicateChallenge);
        }
        let ghost id = challenge_id@;
        let book = ChallengeBook::new(
            ctx.authority,
            ctx.admin,
            challenge_id,
            ctx.mode,
            stake_amount,
            start_time,
            end_time,
            min_participants,
            max_participants,
        );
        let ghost before = *self;
        self.books.push(book);
        proof {
            let n = before.books@.len() as int;
            assert(self.books@.subrange(0, n) =~= before.books@);
            assert forall|a: int, b: int|
                0 <= a < self.books@.len() && 0 <= b < self.books@.len() && a != b
                    implies #[trigger] self.id_at(a) != #[trigger] self.id_at(b) by {
                if a < n && b < n {
                    assert(self.id_at(a) == before.id_at(a));
                    assert(self.id_at(b) == before.id_at(b));
                } else if a < n {
                    assert(self.id_at(a) == before.id_at(a));
                } else {
                    assert(self.id_at(b) == before.id_at(b));
                }
            }
            assert forall|j: int| 0 <= j < self.books@.len() implies (#[trigger] self.books@[j]).wf() by {
                if j < n {
                    assert(self.books@[j] == before.books@[j]);
                }
            }
        }
        Ok(())
    }

    /// Decides a join without changing anything; on success it gives the
    /// amount the wallet must deposit into the challenge's vault.
    pub fn plan_join(&self, ctx: &JoinChallenge) -> (r: Result<u64, AccountingError>)
        requires
            self.wf(),
        ensures
            r == self.join_outcome(ctx.challenge_id@, ctx.participant_authority, ctx.now),
    {
        match self.find(&ctx.challenge_id) {
            Some(i) => self.books[i].plan_join(ctx.participant_authority, ctx.now),
            None => Err(AccountingError::ChallengeNotFound),
        }
    }

    /// Records a join once the deposit has reached the vault. On refusal
    /// nothing changes.
    pub fn join_challenge(&mut self, ctx: &JoinChallenge) -> (r: Result<u64, AccountingError>)
        requires
            old(self).wf(),
            old(self).join_outcome(ctx.challenge_id@, ctx.participant_authority, ctx.now) is Ok
                ==> old(self).stake_fits(ctx.challenge_id@),
        ensures
            final(self).wf(),
            r == old(self).join_outcome(ctx.challenge_id@, ctx.participant_authority, ctx.now),
            r is Ok ==> old(self).join_step(*final(self), ctx.challenge_id@, ctx.participant_authority),
            r is Err ==> final(self).books@ == old(self).books@,
    {
        let i = match self.find(&ctx.challenge_id) {
            Some(i) => i,
            None => {
                return Err(AccountingError::ChallengeNotFound);
            },
        };
        let ghost before = *self;
        let r = self.books[i].join(ctx.participant_authority, ctx.now);
        proof {
            before.lemma_replace_keeps_wf(*self, i as int);
            if r is Err {
                assert(self.books@ =~= before.books@);
            }
        }
        r
    }

    /// Replaces the attested winners of a challenge with `participant_wallets`.
    pub fn admin_complete_challenges(
        &mut self,
        ctx: &AdminCompleteChallenge,
        participant_wallets: Vec<Address>,
    ) -> (r: Result<(), AccountingError>)
        requires
            old(self).wf(),
        ensures
            final(self).wf(),
            r == old(self).submit_outcome(ctx.challenge_id@, ctx.admin),
            r is Ok ==> old(self).submit_step(*final(self), ctx.challenge_id@, participant_wallets@),
            r is Err ==> final(self).books@ == old(self).books@,
    {
        let i = match self.find(&ctx.challenge_id) {
            Some(i) => i,
            None => {
                return Err(AccountingError::ChallengeNotFound);
            },
        };
        let ghost before = *self;
        let r = self.books[i].submit(ctx.admin, participant_wallets);
        proof {
            before.lemma_replace_keeps_wf(*self, i as int);
            if r is Err {
                assert(self.books@ =~= before.books@);
            }
        }
        r
    }

    /// Completes a challenge by its admin's decision.
    pub fn finalize_challenge(&mut self, ctx: &FinalizeChallenge) -> (r: Result<(), AccountingError>)
        requires
            old(self).wf(),
        ensures
            final(self).wf(),
            r == old(self).finalize_outcome(ctx.challenge_id@, ctx.admin, ctx.now),
            r is Ok ==> old(self).finalize_step(*final(self), ctx.challenge_id@),
            r is Err ==> final(self).books@ == old(self).books@,
    {
        let i = match self.find(&ctx.challenge_id) {
            Some(i) => i,
            None => {
                return Err(AccountingError::ChallengeNotFound);
            },
        };
        let ghost before = *self;
        let r = self.books[i].finalize(ctx.admin, ctx.now);
        proof {
            before.lemma_replace_keeps_wf(*self, i as int);
            if r is Err {
                assert(self.books@ =~= before.books@);
            }
        }
        r
    }

    /// Decides a claim without changing anything; on success it gives the
    /// payout to send from the challenge's vault.
    pub fn plan_claim(&self, ctx: &ClaimReward) -> (r: Result<u64, AccountingError>)
        requires
            self.wf(),
        ensures
            r == self.claim_outcome(ctx.challenge_id@, ctx.participant_authority, ctx.now),
    {
        match self.find(&ctx.challenge_id) {
            Some(i) => self.books[i].plan_claim(ctx.participant_authority, ctx.now),
            None => Err(AccountingError::ChallengeNotFound),
        }
    }

    /// Settles a claim once its payout has left the vault. On refusal
    /// nothing changes.
    pub fn claim_reward(&mut self, ctx: &ClaimReward) -> (r: Result<u64, AccountingError>)
        requires
            old(self).wf(),
        ensures
            final(self).wf(),
            r == old(self).claim_outcome(ctx.challenge_id@, ctx.participant_authority, ctx.now),
            r is Ok ==> old(self).claim_step(*final(self), ctx.challenge_id@, ctx.participant_authority),
            r is Err ==> final(self).books@ == old(self).books@,
    {
        let i = match self.find(&ctx.challenge_id) {
            Some(i) => i,
            None => {
                return Err(AccountingError::ChallengeNotFound);
            },
        };
        let ghost before = *self;
        let r = self.books[i].claim(ctx.participant_authority, ctx.now);
        proof {
            before.lemma_replace_keeps_wf(*self, i as int);
            if r is Err {
                assert(self.books@ =~= before.books@);
            }
        }
        r
    }
}

} // verus!

use accountability::{
    calculate_reward, AccountingError, AdminCompleteChallenge, ChallengeBook, ClaimReward,
    CreateChallenge, FinalizeChallenge, JoinChallenge, LifecycleMode, Registry,
};
use accountability::Address;

const START: i64 = 1_000;
const END: i64 = 2_000;

fn wallet(n: u128) -> Address {
    Address::new(0, n)
}

fn admin() -> Address {
    Address::new(7, 7)
}

fn id(s: &str) -> String {
    s.to_string()
}

fn create(reg: &mut Registry, cid: &str, mode: LifecycleMode, stake: u64, min: u8, max: u8) {
    let ctx = CreateChallenge { authority: wallet(99), admin: admin(), mode };
    assert_eq!(reg.create_challenge(&ctx, id(cid), stake, START, END, min, max), Ok(()));
}

fn join_ctx(cid: &str, who: Address, now: i64) -> JoinChallenge {
    JoinChallenge { challenge_id: id(cid), participant_authority: who, now }
}

fn join(reg: &mut Registry, cid: &str, who: Address, now: i64) -> Result<u64, AccountingError> {
    let ctx = join_ctx(cid, who, now);
    let planned = reg.plan_join(&ctx);
    let done = reg.join_challenge(&ctx);
    assert_eq!(planned, done);
    done
}

fn attest(reg: &mut Registry, cid: &str, caller: Address, wallets: Vec<Address>) -> Result<(), AccountingError> {
    let ctx = AdminCompleteChallenge { challenge_id: id(cid), admin: caller };
    reg.admin_complete_challenges(&ctx, wallets)
}

fn finalize(reg: &mut Registry, cid: &str, caller: Address, now: i64) -> Result<(), AccountingError> {
    let ctx = FinalizeChallenge { challenge_id: id(cid), admin: caller, now };
    reg.finalize_challenge(&ctx)
}

fn claim(reg: &mut Registry, cid: &str, who: Address, now: i64) -> Result<u64, AccountingError> {
    let ctx = ClaimReward { challenge_id: id(cid), participant_authority: who, now };
    let planned = reg.plan_claim(&ctx);
    let done = reg.claim_reward(&ctx);
    assert_eq!(planned, done);
    done
}

fn book<'a>(reg: &'a Registry, cid: &str) -> &'a ChallengeBook {
    reg.book_of(&id(cid)).unwrap()
}

#[test]
fn reward_zero_winners_pays_nothing() {
    assert_eq!(calculate_reward(1000, 0), 0);
    assert_eq!(calculate_reward(0, 0), 0);
}

#[test]
fn reward_keeps_remainder_in_vault() {
    assert_eq!(calculate_reward(1000, 3), 333);
    assert_eq!(1000 - 3 * calculate_reward(1000, 3), 1);
}

#[test]
fn reward_exact_split() {
    assert_eq!(calculate_reward(900, 3), 300);
    assert_eq!(calculate_reward(200, 2), 100);
    assert_eq!(calculate_reward(300, 1), 300);
    assert_eq!(calculate_reward(u64::MAX, 1), u64::MAX);
}

#[test]
fn two_winners_split_the_pool() {
    let mut reg = Registry::new();
    create(&mut reg, "run", LifecycleMode::Permissive, 100, 2, 5);
    let (a, b, c) = (wallet(1), wallet(2), wallet(3));
    assert_eq!(join(&mut reg, "run", a, START), Ok(100));
    assert_eq!(join(&mut reg, "run", b, START), Ok(100));
    assert_eq!(book(&reg, "run").challenge.total_stake, 200);
    assert!(book(&reg, "run").challenge.is_active);
    assert_eq!(attest(&mut reg, "run", admin(), vec![a, b]), Ok(()));
    assert_eq!(claim(&mut reg, "run", a, END), Ok(100));
    assert_eq!(claim(&mut reg, "run", b, END + 1), Ok(100));
    assert_eq!(claim(&mut reg, "run", c, END + 1), Err(AccountingError::NotCompleted));
    assert!(book(&reg, "run").challenge.is_completed);
}

#[test]
fn single_winner_takes_whole_pool() {
    let mut reg = Registry::new();
    create(&mut reg, "swim", LifecycleMode::Permissive, 100, 2, 5);
    let (a, b, c) = (wallet(1), wallet(2), wallet(3));
    for w in [a, b, c] {
        assert_eq!(join(&mut reg, "swim", w, START), Ok(100));
    }
    assert_eq!(book(&reg, "swim").challenge.total_stake, 300);
    assert_eq!(attest(&mut reg, "swim", admin(), vec![b]), Ok(()));
    assert_eq!(claim(&mut reg, "swim", b, END), Ok(300));
    // The two non-winners have no way to recover their stake.
    assert_eq!(claim(&mut reg, "swim", a, END), Err(AccountingError::NotCompleted));
    assert_eq!(claim(&mut reg, "swim", c, END + 50), Err(AccountingError::NotCompleted));
    let ledger = &book(&reg, "swim").participants;
    assert!(ledger.iter().all(|p| p.claimed == (p.authority == b)));
}

#[test]
fn joins_past_cap_are_refused() {
    let mut reg = Registry::new();
    create(&mut reg, "cap", LifecycleMode::Strict, 10, 1, 2);
    assert_eq!(join(&mut reg, "cap", wallet(1), START), Ok(10));
    assert_eq!(join(&mut reg, "cap", wallet(2), START), Ok(10));
    for n in 3..10 {
        assert_eq!(join(&mut reg, "cap", wallet(n), START), Err(AccountingError::MaxParticipantsReached));
    }
    let b = book(&reg, "cap");
    assert_eq!(b.challenge.participant_count, 2);
    assert_eq!(b.challenge.total_stake, 20);
    assert_eq!(b.participants.len(), 2);
}

#[test]
fn zero_cap_admits_nobody() {
    let mut reg = Registry::new();
    create(&mut reg, "none", LifecycleMode::Permissive, 10, 0, 0);
    assert_eq!(join(&mut reg, "none", wallet(1), START), Err(AccountingError::MaxParticipantsReached));
    assert!(!book(&reg, "none").challenge.is_active);
}

#[test]
fn wallet_joins_only_once() {
    let mut reg = Registry::new();
    create(&mut reg, "once", LifecycleMode::Strict, 10, 3, 5);
    assert_eq!(join(&mut reg, "once", wallet(1), START), Ok(10));
    assert_eq!(join(&mut reg, "once", wallet(1), START + 5), Err(AccountingError::AlreadyJoined));
    assert_eq!(book(&reg, "once").challenge.participant_count, 1);
    assert_eq!(book(&reg, "once").challenge.total_stake, 10);
}

#[test]
fn activation_when_minimum_reached() {
    let mut reg = Registry::new();
    create(&mut reg, "act", LifecycleMode::Strict, 5, 3, 10);
    for n in 1..=2 {
        assert_eq!(join(&mut reg, "act", wallet(n), START), Ok(5));
        assert!(!book(&reg, "act").challenge.is_active);
    }
    assert_eq!(join(&mut reg, "act", wallet(3), START), Ok(5));
    assert!(book(&reg, "act").challenge.is_active);
    assert_eq!(join(&mut reg, "act", wallet(4), START), Ok(5));
    assert_eq!(attest(&mut reg, "act", admin(), vec![wallet(1)]), Ok(()));
    assert_eq!(finalize(&mut reg, "act", admin(), END), Ok(()));
    assert_eq!(claim(&mut reg, "act", wallet(1), END), Ok(20));
    assert!(book(&reg, "act").challenge.is_active);
}

#[test]
fn zero_minimum_activates_on_first_join() {
    let mut reg = Registry::new();
    create(&mut reg, "zero", LifecycleMode::Permissive, 5, 0, 10);
    assert!(!book(&reg, "zero").challenge.is_active);
    assert_eq!(join(&mut reg, "zero", wallet(1), START), Ok(5));
    assert!(book(&reg, "zero").challenge.is_active);
}

#[test]
fn strict_claim_needs_finalize() {
    let mut reg = Registry::new();
    create(&mut reg, "fin", LifecycleMode::Strict, 50, 1, 5);
    assert_eq!(join(&mut reg, "fin", wallet(1), START), Ok(50));
    assert_eq!(attest(&mut reg, "fin", admin(), vec![wallet(1)]), Ok(()));
    assert_eq!(claim(&mut reg, "fin", wallet(1), END + 100), Err(AccountingError::ChallengeNotCompleted));
    assert_eq!(finalize(&mut reg, "fin", admin(), END - 1), Err(AccountingError::ChallengeNotEnded));
    assert_eq!(finalize(&mut reg, "fin", wallet(1), END), Err(AccountingError::UnauthorizedAdmin));
    assert_eq!(finalize(&mut reg, "fin", admin(), END), Ok(()));
    assert_eq!(finalize(&mut reg, "fin", admin(), END + 1), Err(AccountingError::ChallengeCompleted));
    assert_eq!(claim(&mut reg, "fin", wallet(1), END), Ok(50));
}

#[test]
fn permissive_claim_before_end_refused() {
    let mut reg = Registry::new();
    create(&mut reg, "early", LifecycleMode::Permissive, 50, 1, 5);
    assert_eq!(join(&mut reg, "early", wallet(1), START - 500), Ok(50));
    assert_eq!(attest(&mut reg, "early", admin(), vec![wallet(1)]), Ok(()));
    assert_eq!(claim(&mut reg, "early", wallet(1), END - 1), Err(AccountingError::ChallengeNotEnded));
    assert!(!book(&reg, "early").challenge.is_completed);
    assert_eq!(claim(&mut reg, "early", wallet(1), END), Ok(50));
    assert!(book(&reg, "early").challenge.is_completed);
}

#[test]
fn unattested_participant_cannot_claim() {
    let mut reg = Registry::new();
    create(&mut reg, "miss", LifecycleMode::Strict, 40, 2, 5);
    assert_eq!(join(&mut reg, "miss", wallet(1), START), Ok(40));
    assert_eq!(join(&mut reg, "miss", wallet(2), START), Ok(40));
    assert_eq!(attest(&mut reg, "miss", admin(), vec![wallet(1)]), Ok(()));
    assert_eq!(finalize(&mut reg, "miss", admin(), END), Ok(()));
    assert_eq!(claim(&mut reg, "miss", wallet(2), END), Err(AccountingError::NotCompleted));
    assert!(!book(&reg, "miss").participants[1].claimed);
}

#[test]
fn no_attestation_means_no_claim() {
    let mut reg = Registry::new();
    create(&mut reg, "empty", LifecycleMode::Permissive, 40, 1, 5);
    assert_eq!(join(&mut reg, "empty", wallet(1), START), Ok(40));
    assert_eq!(claim(&mut reg, "empty", wallet(1), END), Err(AccountingError::NotCompleted));
    assert!(!book(&reg, "empty").challenge.is_completed);
}

#[test]
fn second_claim_refused_even_if_relisted() {
    let mut reg = Registry::new();
    create(&mut reg, "twice", LifecycleMode::Permissive, 30, 1, 5);
    assert_eq!(join(&mut reg, "twice", wallet(1), START), Ok(30));
    assert_eq!(join(&mut reg, "twice", wallet(2), START), Ok(30));
    assert_eq!(attest(&mut reg, "twice", admin(), vec![wallet(1), wallet(2)]), Ok(()));
    assert_eq!(claim(&mut reg, "twice", wallet(1), END), Ok(30));
    assert_eq!(claim(&mut reg, "twice", wallet(1), END + 1), Err(AccountingError::AlreadyClaimed));
    assert_eq!(attest(&mut reg, "twice", admin(), vec![wallet(1)]), Ok(()));
    assert_eq!(claim(&mut reg, "twice", wallet(1), END + 2), Err(AccountingError::AlreadyClaimed));
    let p = book(&reg, "twice").participants[0];
    assert!(p.claimed && p.completed);
}

#[test]
fn strict_attestation_frozen_after_completion() {
    let mut reg = Registry::new();
    create(&mut reg, "frozen", LifecycleMode::Strict, 30, 1, 5);
    assert_eq!(join(&mut reg, "frozen", wallet(1), START), Ok(30));
    assert_eq!(attest(&mut reg, "frozen", admin(), vec![wallet(1)]), Ok(()));
    assert_eq!(finalize(&mut reg, "frozen", admin(), END), Ok(()));
    assert_eq!(attest(&mut reg, "frozen", admin(), vec![]), Err(AccountingError::ChallengeCompleted));
    assert_eq!(book(&reg, "frozen").completed_list.wallets, vec![wallet(1)]);
}

#[test]
fn attestation_guards() {
    let mut reg = Registry::new();
    create(&mut reg, "guard", LifecycleMode::Permissive, 30, 2, 5);
    assert_eq!(join(&mut reg, "guard", wallet(1), START), Ok(30));
    assert_eq!(attest(&mut reg, "guard", admin(), vec![wallet(1)]), Err(AccountingError::ChallengeNotActive));
    assert_eq!(join(&mut reg, "guard", wallet(2), START), Ok(30));
    assert_eq!(attest(&mut reg, "guard", wallet(1), vec![wallet(1)]), Err(AccountingError::UnauthorizedAdmin));
    assert_eq!(attest(&mut reg, "guard", admin(), vec![wallet(1)]), Ok(()));
    assert_eq!(attest(&mut reg, "guard", admin(), vec![wallet(2), wallet(1)]), Ok(()));
    assert_eq!(book(&reg, "guard").completed_list.wallets, vec![wallet(2), wallet(1)]);
    assert!(!book(&reg, "guard").completed_list.is_processed);
    assert_eq!(finalize(&mut reg, "missing", admin(), END), Err(AccountingError::ChallengeNotFound));
}

#[test]
fn finalize_needs_active_challenge() {
    let mut reg = Registry::new();
    create(&mut reg, "idle", LifecycleMode::Strict, 30, 2, 5);
    assert_eq!(finalize(&mut reg, "idle", admin(), END), Err(AccountingError::ChallengeNotActive));
}

#[test]
fn strict_join_waits_for_start() {
    let mut reg = Registry::new();
    create(&mut reg, "late", LifecycleMode::Strict, 30, 1, 5);
    assert_eq!(join(&mut reg, "late", wallet(1), START - 1), Err(AccountingError::ChallengeNotStarted));
    assert_eq!(book(&reg, "late").challenge.participant_count, 0);
    assert_eq!(join(&mut reg, "late", wallet(1), START), Ok(30));
}

#[test]
fn join_after_completion_refused() {
    let mut reg = Registry::new();
    create(&mut reg, "done", LifecycleMode::Strict, 30, 1, 5);
    assert_eq!(join(&mut reg, "done", wallet(1), START), Ok(30));
    assert_eq!(finalize(&mut reg, "done", admin(), END), Ok(()));
    assert_eq!(join(&mut reg, "done", wallet(2), END), Err(AccountingError::ChallengeCompleted));
}

#[test]
fn duplicate_challenge_refused() {
    let mut reg = Registry::new();
    create(&mut reg, "dup", LifecycleMode::Strict, 30, 1, 5);
    let ctx = CreateChallenge { authority: wallet(5), admin: wallet(5), mode: LifecycleMode::Permissive };
    assert_eq!(
        reg.create_challenge(&ctx, id("dup"), 1, 0, 1, 1, 1),
        Err(AccountingError::DuplicateChallenge)
    );
    assert_eq!(reg.books.len(), 1);
    assert_eq!(book(&reg, "dup").challenge.stake_amount, 30);
    assert_eq!(book(&reg, "dup").challenge.admin, admin());
    assert_eq!(reg.create_challenge(&ctx, id("dup2"), 1, 0, 1, 1, 1), Ok(()));
    assert_eq!(reg.books.len(), 2);
}

#[test]
fn unknown_challenge_refused() {
    let mut reg = Registry::new();
    assert_eq!(join(&mut reg, "ghost", wallet(1), START), Err(AccountingError::ChallengeNotFound));
    assert_eq!(claim(&mut reg, "ghost", wallet(1), END), Err(AccountingError::ChallengeNotFound));
    assert!(reg.book_of(&id("ghost")).is_none());
}

#[test]
fn attested_non_participant_refused() {
    let mut reg = Registry::new();
    create(&mut reg, "stranger", LifecycleMode::Permissive, 30, 1, 5);
    assert_eq!(join(&mut reg, "stranger", wallet(1), START), Ok(30));
    assert_eq!(attest(&mut reg, "stranger", admin(), vec![wallet(1), wallet(9)]), Ok(()));
    assert_eq!(claim(&mut reg, "stranger", wallet(9), END), Err(AccountingError::NotJoined));
    assert_eq!(claim(&mut reg, "stranger", wallet(1), END), Ok(15));
}

#[test]
fn stake_copied_into_ledger() {
    let mut reg = Registry::new();
    create(&mut reg, "copy", LifecycleMode::Strict, 77, 1, 5);
    assert_eq!(join(&mut reg, "copy", wallet(4), START), Ok(77));
    let p = book(&reg, "copy").participants[0];
    assert_eq!(p.authority, wallet(4));
    assert_eq!(p.stake_amount, 77);
    assert!(!p.completed && !p.claimed);
}

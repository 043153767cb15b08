use vstd::prelude::*;

verus! {

/// One winner's share of a pool of `total_stake` split equally among
/// `winner_count` winners; nothing is paid when there are no winners.
pub open spec fn reward_spec(total_stake: u64, winner_count: nat) -> u64 {
    if winner_count == 0 {
        0
    } else {
        (total_stake as nat / winner_count) as u64
    }
}

/// Equal-split settlement: floor of `total_stake / winner_count`, or 0 when
/// there is no winner. The remainder stays in the vault.
pub fn calculate_reward(total_stake: u64, winner_count: u64) -> (r: u64)
    ensures
        r == reward_spec(total_stake, winner_count as nat),
        winner_count > 0 ==> (r as nat) * (winner_count as nat) <= (total_stake as nat),
        winner_count > 0 ==> (total_stake as nat) - (r as nat) * (winner_count as nat) < (winner_count as nat),
{
    if winner_count == 0 {
        return 0;
    }
    let r = total_stake / winner_count;
    proof {
        let t = total_stake as int;
        let n = winner_count as int;
        assert(t == (t / n) * n + t % n) by (nonlinear_arith)
            requires n > 0;
        assert(0 <= t % n < n) by (nonlinear_arith)
            requires n > 0;
    }
    r
}

} // verus!

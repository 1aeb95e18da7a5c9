//! The claim engine: realises what a deposit has accrued into a new vesting
//! claim, which itself keeps accruing in the reward pool.

use vstd::prelude::*;
use crate::accounts::{
    deposit_index, find_deposit, find_pool, has_deposit, has_pool, lemma_deposit_index,
    lemma_pool_index, pool_index, unique_tokens, Claim, Deposit, GlobalAccount, Key, Pool,
    UserAccount,
};
use crate::errors::ErrorCode;
use crate::fixed_point::{
    accrue, accrued_of, calculate_weighted_claim_amount, weighted_claim_amount_of,
};
use crate::staking::{lemma_same_weights, restaked};

verus! {

/// Reward that deposit `d` has accrued up to pool index `pool_index`.
pub open spec fn deposit_rewards_of(d: Deposit, pool_index: u64) -> int {
    accrued_of(d.amount + d.weighted_amount, pool_index, d.reward_index_mul)
}

/// Pool `p` owing `amount` more of locked rewards.
pub open spec fn locked_more(p: Pool, amount: int) -> Pool {
    Pool { total_locked_rewards: (p.total_locked_rewards + amount) as u64, ..p }
}

/// The outcome of `claim` on `g0`, `u0`: `g1`, `u1` and `r`.
pub open spec fn claim_post(
    g0: GlobalAccount,
    u0: UserAccount,
    g1: GlobalAccount,
    u1: UserAccount,
    deposit_token: Key,
    deposit_id: u16,
    now: i64,
    r: Result<(), ErrorCode>,
) -> bool {
    let pools = g0.pools@;
    let is_reward = deposit_token == g0.reward_token;
    let si = pool_index(pools, deposit_token);
    let ri = pool_index(pools, g0.reward_token);
    let k = deposit_index(u0.deposits@, deposit_id);
    let d = u0.deposits@[k];
    let amount = deposit_rewards_of(d, pools[si].reward_index_mul);
    let wc = weighted_claim_amount_of(amount, g0.locked_reward_multiplier_mul as int);
    let unchanged = g1.same_as(&g0) && u1.same_as(&u0);
    if !is_reward && !has_pool(pools, deposit_token) {
        r == Err::<(), ErrorCode>(ErrorCode::DepositPoolNotFound) && unchanged
    } else if !has_pool(pools, g0.reward_token) {
        r == Err::<(), ErrorCode>(ErrorCode::RewardPoolNotFound) && unchanged
    } else if !has_deposit(u0.deposits@, deposit_id) {
        r == Err::<(), ErrorCode>(ErrorCode::InvalidDepositId) && unchanged
    } else if d.deposit_token != deposit_token {
        r == Err::<(), ErrorCode>(ErrorCode::InvalidDepositToken) && unchanged
    } else if amount == 0 {
        r == Err::<(), ErrorCode>(ErrorCode::ZeroClaimAmount) && unchanged
    } else if amount > u64::MAX || wc > u64::MAX || pools[si].total_locked_rewards + amount
        > u64::MAX || pools[ri].staking_amount + amount > u64::MAX
        || pools[ri].weighted_staking_amount + wc > u64::MAX || u0.next_claim_id == u16::MAX {
        r == Err::<(), ErrorCode>(ErrorCode::MathOverflow) && unchanged
    } else {
        &&& r is Ok
        &&& g1.same_settings(&g0)
        &&& g1.pools@ == (if is_reward {
            pools.update(ri, restaked(locked_more(pools[ri], amount), amount, wc))
        } else {
            pools.update(si, locked_more(pools[si], amount)).update(
                ri,
                restaked(pools[ri], amount, wc),
            )
        })
        &&& u1.user == u0.user
        &&& u1.next_deposit_id == u0.next_deposit_id
        &&& u1.next_claim_id == u0.next_claim_id + 1
        &&& u1.deposits@ == u0.deposits@.update(
            k,
            Deposit { reward_index_mul: pools[si].reward_index_mul, ..d },
        )
        &&& u1.claims@ == u0.claims@.push(
            Claim {
                id: u0.next_claim_id,
                deposit_token: d.deposit_token,
                deposit_id: d.id,
                amount: amount as u64,
                remaining_amount: amount as u64,
                reward_index_mul: pools[ri].reward_index_mul,
                lock_time: now,
                last_withdraw_time: now,
                withdrawn_count: 0,
            },
        )
    }
}

/// Reward that `deposit` has accrued up to pool index `reward_index_mul`;
/// `None` when it does not fit in a `u64`.
pub fn calculate_rewards(deposit: &Deposit, reward_index_mul: u64) -> (r: Option<u64>)
    ensures
        deposit_rewards_of(*deposit, reward_index_mul) <= u64::MAX ==> r == Some(
            deposit_rewards_of(*deposit, reward_index_mul) as u64,
        ),
        deposit_rewards_of(*deposit, reward_index_mul) > u64::MAX ==> r is None,
{
    accrue(deposit.amount, deposit.weighted_amount, reward_index_mul, deposit.reward_index_mul)
}

/// Realises what deposit `deposit_id` of `deposit_token` has accrued into a
/// new claim locked at `now`. The deposit's snapshot moves up to its pool's
/// index, the pool owes the amount as locked rewards, and the claim is staked
/// in the reward pool with the locked-reward boost.
pub fn claim(
    global: &mut GlobalAccount,
    user: &mut UserAccount,
    deposit_token: Key,
    deposit_id: u16,
    now: i64,
) -> (r: Result<(), ErrorCode>)
    requires
        old(global).wf(),
        old(user).wf(),
    ensures
        final(global).wf(),
        final(user).wf(),
        forall|count: u8| count > 0 && old(user).vesting_wf(count) ==> final(user).vesting_wf(count),
        claim_post(*old(global), *old(user), *final(global), *final(user), deposit_token, deposit_id, now, r),
{
    let is_reward = deposit_token.same(&global.reward_token);
    let source = find_pool(&global.pools, &deposit_token);
    if !is_reward && source.is_none() {
        return Err(ErrorCode::DepositPoolNotFound);
    }
    let ri = match find_pool(&global.pools, &global.reward_token) {
        None => {
            return Err(ErrorCode::RewardPoolNotFound);
        },
        Some(ri) => ri,
    };
    proof {
        lemma_pool_index(global.pools@, ri as int);
    }
    let si = match source {
        Some(si) => si,
        None => ri,
    };
    proof {
        lemma_pool_index(global.pools@, si as int);
    }
    let k = match find_deposit(&user.deposits, deposit_id) {
        None => {
            return Err(ErrorCode::InvalidDepositId);
        },
        Some(k) => k,
    };
    proof {
        lemma_deposit_index(user.deposits@, k as int);
    }
    let deposit = user.deposits[k];
    if !deposit.deposit_token.same(&deposit_token) {
        return Err(ErrorCode::InvalidDepositToken);
    }
    let source_pool = global.pools[si];
    let reward_pool = global.pools[ri];
    let amount = match calculate_rewards(&deposit, source_pool.reward_index_mul) {
        None => {
            return Err(ErrorCode::MathOverflow);
        },
        Some(a) => a,
    };
    if amount == 0 {
        return Err(ErrorCode::ZeroClaimAmount);
    }
    let weighted = match calculate_weighted_claim_amount(amount, global.locked_reward_multiplier_mul) {
        None => {
            return Err(ErrorCode::MathOverflow);
        },
        Some(w) => w,
    };
    if source_pool.total_locked_rewards > u64::MAX - amount || reward_pool.staking_amount
        > u64::MAX - amount || reward_pool.weighted_staking_amount > u64::MAX - weighted
        || user.next_claim_id == u16::MAX {
        return Err(ErrorCode::MathOverflow);
    }
    let new_claim = deposit.new_claim(user.next_claim_id, amount, reward_pool.reward_index_mul, now);
    if is_reward {
        global.pools.set(
            ri,
            Pool {
                total_locked_rewards: reward_pool.total_locked_rewards + amount,
                staking_amount: reward_pool.staking_amount + amount,
                weighted_staking_amount: reward_pool.weighted_staking_amount + weighted,
                ..reward_pool
            },
        );
    } else {
        global.pools.set(
            si,
            Pool { total_locked_rewards: source_pool.total_locked_rewards + amount, ..source_pool },
        );
        global.pools.set(
            ri,
            Pool {
                staking_amount: reward_pool.staking_amount + amount,
                weighted_staking_amount: reward_pool.weighted_staking_amount + weighted,
                ..reward_pool
            },
        );
    }
    user.deposits.set(k, Deposit { reward_index_mul: source_pool.reward_index_mul, ..deposit });
    let ghost claims0 = user.claims@;
    user.claims.push(new_claim);
    user.next_claim_id = user.next_claim_id + 1;
    proof {
        assert(unique_tokens(global.pools@)) by {
            assert forall|a: int, b: int|
                0 <= a < global.pools@.len() && 0 <= b < global.pools@.len() && a != b implies #[trigger] global.pools@[a].deposit_token
                != #[trigger] global.pools@[b].deposit_token by {
                assert(old(global).pools@[a].deposit_token != old(global).pools@[b].deposit_token);
            }
        }
        lemma_same_weights(old(global).pools@, global.pools@);
        assert(user.claims@[claims0.len() as int] == new_claim);
        assert forall|j: int| 0 <= j < claims0.len() implies user.claims@[j] == claims0[j] by {}
        assert forall|count: u8| count > 0 && old(user).vesting_wf(count) implies user.vesting_wf(count) by {
            assert forall|a: int| 0 <= a < user.claims@.len() implies {
                let c2 = #[trigger] user.claims@[a];
                &&& c2.withdrawn_count < count
                &&& c2.remaining_amount == c2.amount - c2.withdrawn_count * ((c2.amount as int) / (count as int))
            } by {
                if a < claims0.len() {
                    assert(old(user).claims@[a] == user.claims@[a]);
                }
            }
        }
        assert forall|a: int, b: int|
            0 <= a < user.deposits@.len() && 0 <= b < user.deposits@.len() && a != b implies #[trigger] user.deposits@[a].id
            != #[trigger] user.deposits@[b].id by {
            assert(old(user).deposits@[a].id != old(user).deposits@[b].id);
        }
        assert forall|a: int| 0 <= a < user.deposits@.len() implies #[trigger] user.deposits@[a].id
            < user.next_deposit_id by {
            assert(old(user).deposits@[a].id < old(user).next_deposit_id);
        }
    }
    Ok(())
}

} // verus!

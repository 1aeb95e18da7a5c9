//! The vesting engine: releases a claim in equal tranches, one per interval,
//! together with what the released part accrued in the reward pool.

use vstd::prelude::*;
use vstd::arithmetic::div_mod::*;
use vstd::arithmetic::mul::*;
use crate::accounts::{
    claim_index, find_claim, find_pool, has_claim, has_pool, lemma_claim_index, lemma_pool_index,
    pool_index, unique_tokens, Claim, GlobalAccount, Pool, UserAccount,
};
use crate::claim::locked_more;
use crate::errors::ErrorCode;
use crate::fixed_point::{
    accrue, accrued_of, calculate_weighted_claim_amount, weighted_claim_amount_of,
};
use crate::staking::{lemma_same_weights, restaked};

verus! {

/// Tranches of a claim locked at `lock_time` that have matured by `now`.
pub open spec fn expected_tranches(now: i64, lock_time: i64, interval: u32, count: u8) -> int {
    if now <= lock_time {
        0
    } else if (now - lock_time) / (interval as int) < count {
        (now - lock_time) / (interval as int)
    } else {
        count as int
    }
}

/// Matured tranches of `c` at `now` that have not been paid out.
pub open spec fn tranches_due(g: GlobalAccount, c: Claim, now: i64) -> int {
    expected_tranches(now, c.lock_time, g.locked_reward_withdraw_interval, g.locked_reward_withdraw_count)
        - c.withdrawn_count
}

/// Principal of one tranche of `c`.
pub open spec fn tranche_principal(g: GlobalAccount, c: Claim) -> int {
    (c.amount as int) / (g.locked_reward_withdraw_count as int)
}

/// Boost of one tranche of `c` in the reward pool.
pub open spec fn tranche_weight(g: GlobalAccount, c: Claim) -> int {
    weighted_claim_amount_of(tranche_principal(g, c), g.locked_reward_multiplier_mul as int)
}

/// What one tranche of `c` accrued until the reward index reached `pool_index`.
pub open spec fn tranche_bonus(g: GlobalAccount, c: Claim, pool_index: u64) -> int {
    accrued_of(tranche_principal(g, c) + tranche_weight(g, c), pool_index, c.reward_index_mul)
}

/// The outcome of `withdraw` on `g0`, `u0`: `g1`, `u1` and `r`, the amount paid
/// out.
pub open spec fn withdraw_post(
    g0: GlobalAccount,
    u0: UserAccount,
    g1: GlobalAccount,
    u1: UserAccount,
    claim_id: u16,
    now: i64,
    r: Result<u64, ErrorCode>,
) -> bool {
    let pools = g0.pools@;
    let ri = pool_index(pools, g0.reward_token);
    let rp = pools[ri];
    let j = claim_index(u0.claims@, claim_id);
    let c = u0.claims@[j];
    let due = tranches_due(g0, c, now);
    let principal = tranche_principal(g0, c) * due;
    let weight = tranche_weight(g0, c) * due;
    let bonus = tranche_bonus(g0, c, rp.reward_index_mul) * due;
    let is_reward = c.deposit_token == g0.reward_token;
    let si = pool_index(pools, c.deposit_token);
    let reward_pool_after = restaked(rp, -principal, -weight);
    let count = c.withdrawn_count + due;
    let unchanged = g1.same_as(&g0) && u1.same_as(&u0);
    if !has_pool(pools, g0.reward_token) {
        r == Err::<u64, ErrorCode>(ErrorCode::RewardPoolNotFound) && unchanged
    } else if !has_claim(u0.claims@, claim_id) {
        r == Err::<u64, ErrorCode>(ErrorCode::InvalidClaimId) && unchanged
    } else if due <= 0 {
        r == Err::<u64, ErrorCode>(ErrorCode::InvalidWithdrawTime) && unchanged
    } else if tranche_weight(g0, c) > u64::MAX || tranche_bonus(g0, c, rp.reward_index_mul)
        > u64::MAX || weight > u64::MAX || bonus > u64::MAX || bonus + principal > u64::MAX {
        r == Err::<u64, ErrorCode>(ErrorCode::MathOverflow) && unchanged
    } else if rp.staking_amount < principal || rp.weighted_staking_amount < weight {
        r == Err::<u64, ErrorCode>(ErrorCode::InsufficientFundsStaked) && unchanged
    } else if !is_reward && !has_pool(pools, c.deposit_token) {
        r == Err::<u64, ErrorCode>(ErrorCode::DepositPoolNotFound) && unchanged
    } else if pools[si].total_locked_rewards < principal {
        r == Err::<u64, ErrorCode>(ErrorCode::MathOverflow) && unchanged
    } else {
        &&& r == Ok::<u64, ErrorCode>((bonus + principal) as u64)
        &&& g1.same_settings(&g0)
        &&& g1.pools@ == (if is_reward {
            pools.update(ri, locked_more(reward_pool_after, -principal))
        } else {
            pools.update(ri, reward_pool_after).update(si, locked_more(pools[si], -principal))
        })
        &&& u1.user == u0.user
        &&& u1.next_deposit_id == u0.next_deposit_id
        &&& u1.next_claim_id == u0.next_claim_id
        &&& u1.deposits@ == u0.deposits@
        &&& u1.claims@ == (if count < g0.locked_reward_withdraw_count {
            u0.claims@.update(
                j,
                Claim {
                    withdrawn_count: count as u8,
                    last_withdraw_time: now,
                    remaining_amount: (c.remaining_amount - principal) as u64,
                    reward_index_mul: rp.reward_index_mul,
                    ..c
                },
            )
        } else {
            u0.claims@.remove(j)
        })
    }
}

proof fn lemma_tranches_fit(amount: int, count: int, done: int, due: int)
    requires
        count > 0,
        amount >= 0,
        0 <= done,
        0 < due,
        done + due <= count,
    ensures
        done * (amount / count) + due * (amount / count) == (done + due) * (amount / count),
        (done + due) * (amount / count) <= amount,
        due * (amount / count) <= amount,
        0 <= done * (amount / count),
{
    let per = amount / count;
    lemma_div_pos_is_pos(amount, count);
    lemma_mul_is_distributive_add_other_way(per, done, due);
    lemma_mul_inequality(done + due, count, per);
    lemma_fundamental_div_mod(amount, count);
    lemma_mod_bound(amount, count);
    lemma_mul_is_commutative(count, per);
    lemma_mul_nonnegative(done, per);
    lemma_mul_nonnegative(due, per);
}

/// Matured tranches of a claim locked at `lock_time`, as of `now`.
pub fn calculate_expected_tranches(now: i64, lock_time: i64, interval: u32, count: u8) -> (r: u8)
    requires
        interval > 0,
    ensures
        r == expected_tranches(now, lock_time, interval, count),
{
    if now <= lock_time {
        return 0;
    }
    let elapsed: u128 = (now as i128 - lock_time as i128) as u128;
    let t: u128 = elapsed / (interval as u128);
    if t < count as u128 {
        t as u8
    } else {
        count
    }
}

/// Pays out the matured tranches of claim `claim_id` at `now`: their
/// principal, and what that principal accrued in the reward pool since the
/// claim's snapshot. The principal leaves the reward pool's stake and the
/// liability of the pool the claim came from. A claim whose last tranche is
/// paid is removed. Returns the amount to send to the user.
pub fn withdraw(global: &mut GlobalAccount, user: &mut UserAccount, claim_id: u16, now: i64) -> (r: Result<
    u64,
    ErrorCode,
>)
    requires
        old(global).wf(),
        old(user).wf(),
        old(global).locked_reward_withdraw_interval > 0,
        old(global).locked_reward_withdraw_count > 0,
        old(user).vesting_wf(old(global).locked_reward_withdraw_count),
    ensures
        final(global).wf(),
        final(user).wf(),
        final(user).vesting_wf(old(global).locked_reward_withdraw_count),
        withdraw_post(*old(global), *old(user), *final(global), *final(user), claim_id, now, r),
{
    let count = global.locked_reward_withdraw_count;
    let ri = match find_pool(&global.pools, &global.reward_token) {
        None => {
            return Err(ErrorCode::RewardPoolNotFound);
        },
        Some(ri) => ri,
    };
    proof {
        lemma_pool_index(global.pools@, ri as int);
    }
    let j = match find_claim(&user.claims, claim_id) {
        None => {
            return Err(ErrorCode::InvalidClaimId);
        },
        Some(j) => j,
    };
    proof {
        lemma_claim_index(user.claims@, j as int);
    }
    let c = user.claims[j];
    let reward_pool = global.pools[ri];
    let expected = calculate_expected_tranches(now, c.lock_time, global.locked_reward_withdraw_interval, count);
    if expected <= c.withdrawn_count {
        return Err(ErrorCode::InvalidWithdrawTime);
    }
    let due: u8 = expected - c.withdrawn_count;
    let per: u64 = c.amount / count as u64;
    let weighted_per = match calculate_weighted_claim_amount(per, global.locked_reward_multiplier_mul) {
        None => {
            return Err(ErrorCode::MathOverflow);
        },
        Some(w) => w,
    };
    let bonus_per = match accrue(per, weighted_per, reward_pool.reward_index_mul, c.reward_index_mul) {
        None => {
            return Err(ErrorCode::MathOverflow);
        },
        Some(b) => b,
    };
    proof {
        lemma_tranches_fit(c.amount as int, count as int, c.withdrawn_count as int, due as int);
        lemma_mul_is_commutative(per as int, due as int);
        assert(user.claims@[j as int] == c);
        assert(c.remaining_amount == c.amount - c.withdrawn_count * (per as int));
    }
    let principal: u64 = per * due as u64;
    let weight: u64 = match weighted_per.checked_mul(due as u64) {
        None => {
            return Err(ErrorCode::MathOverflow);
        },
        Some(w) => w,
    };
    let bonus: u64 = match bonus_per.checked_mul(due as u64) {
        None => {
            return Err(ErrorCode::MathOverflow);
        },
        Some(b) => b,
    };
    let transfer: u64 = match bonus.checked_add(principal) {
        None => {
            return Err(ErrorCode::MathOverflow);
        },
        Some(t) => t,
    };
    if reward_pool.staking_amount < principal || reward_pool.weighted_staking_amount < weight {
        return Err(ErrorCode::InsufficientFundsStaked);
    }
    let is_reward = c.deposit_token.same(&global.reward_token);
    let si = if is_reward {
        ri
    } else {
        match find_pool(&global.pools, &c.deposit_token) {
            None => {
                return Err(ErrorCode::DepositPoolNotFound);
            },
            Some(si) => si,
        }
    };
    proof {
        lemma_pool_index(global.pools@, si as int);
    }
    let source_pool = global.pools[si];
    if source_pool.total_locked_rewards < principal {
        return Err(ErrorCode::MathOverflow);
    }
    let reward_after = Pool {
        staking_amount: reward_pool.staking_amount - principal,
        weighted_staking_amount: reward_pool.weighted_staking_amount - weight,
        ..reward_pool
    };
    if is_reward {
        global.pools.set(
            ri,
            Pool { total_locked_rewards: reward_after.total_locked_rewards - principal, ..reward_after },
        );
    } else {
        global.pools.set(ri, reward_after);
        global.pools.set(
            si,
            Pool { total_locked_rewards: source_pool.total_locked_rewards - principal, ..source_pool },
        );
    }
    let withdrawn: u8 = c.withdrawn_count + due;
    if withdrawn < count {
        user.claims.set(
            j,
            Claim {
                withdrawn_count: withdrawn,
                last_withdraw_time: now,
                remaining_amount: c.remaining_amount - principal,
                reward_index_mul: reward_pool.reward_index_mul,
                ..c
            },
        );
    } else {
        user.claims.remove(j);
    }
    proof {
        assert(unique_tokens(global.pools@)) by {
            assert forall|a: int, b: int|
                0 <= a < global.pools@.len() && 0 <= b < global.pools@.len() && a != b implies #[trigger] global.pools@[a].deposit_token
                != #[trigger] global.pools@[b].deposit_token by {
                assert(old(global).pools@[a].deposit_token != old(global).pools@[b].deposit_token);
            }
        }
        lemma_same_weights(old(global).pools@, global.pools@);
        assert forall|a: int, b: int|
            0 <= a < user.claims@.len() && 0 <= b < user.claims@.len() && a != b implies #[trigger] user.claims@[a].id
            != #[trigger] user.claims@[b].id by {
            let a0 = if withdrawn < count || a < j { a } else { a + 1 };
            let b0 = if withdrawn < count || b < j { b } else { b + 1 };
            assert(old(user).claims@[a0].id != old(user).claims@[b0].id);
        }
        assert forall|a: int| 0 <= a < user.claims@.len() implies #[trigger] user.claims@[a].id
            < user.next_claim_id by {
            let a0 = if withdrawn < count || a < j { a } else { a + 1 };
            assert(old(user).claims@[a0].id < old(user).next_claim_id);
        }
        assert forall|a: int| 0 <= a < user.claims@.len() implies {
            let c2 = #[trigger] user.claims@[a];
            &&& c2.withdrawn_count < count
            &&& c2.remaining_amount == c2.amount - c2.withdrawn_count * ((c2.amount as int) / (count as int))
        } by {
            if withdrawn >= count || a != j {
                let a0 = if withdrawn < count || a < j { a } else { a + 1 };
                assert(user.claims@[a] == old(user).claims@[a0]);
            }
        }
    }
    Ok(transfer)
}

} // verus!

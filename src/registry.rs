//! Creation of the ledgers and registration of pools.

use vstd::prelude::*;
use crate::accounts::{
    find_pool, has_pool, unique_tokens, GlobalAccount, Key, Pool, UserAccount,
};
use crate::errors::ErrorCode;

verus! {

/// A registry with no pools, a reward stream of `rewards_per_second` in
/// `reward_token`, and the given lock and vesting parameters.
pub fn initialize(
    reward_token: Key,
    lock_unit_duration: u64,
    lock_unit_multiplier_mul: u64,
    max_lock_units: u64,
    rewards_per_second: u64,
    locked_reward_withdraw_interval: u32,
    locked_reward_multiplier_mul: u64,
    locked_reward_withdraw_count: u8,
) -> (r: GlobalAccount)
    ensures
        r.wf(),
        r.pools@.len() == 0,
        r.reward_token == reward_token,
        r.lock_unit_duration == lock_unit_duration,
        r.lock_unit_multiplier_mul == lock_unit_multiplier_mul,
        r.max_lock_units == max_lock_units,
        r.rewards_per_second == rewards_per_second,
        r.locked_reward_withdraw_interval == locked_reward_withdraw_interval,
        r.locked_reward_multiplier_mul == locked_reward_multiplier_mul,
        r.locked_reward_withdraw_count == locked_reward_withdraw_count,
        r.total_pool_weight == 0,
        r.total_distributed_rewards == 0,
{
    GlobalAccount {
        reward_token,
        rewards_per_second,
        locked_reward_withdraw_interval,
        locked_reward_multiplier_mul,
        locked_reward_withdraw_count,
        total_pool_weight: 0,
        lock_unit_duration,
        lock_unit_multiplier_mul,
        max_lock_units,
        total_distributed_rewards: 0,
        pools: Vec::new(),
    }
}

/// An empty ledger for `user`.
pub fn initialize_user_account(user: Key) -> (r: UserAccount)
    ensures
        r.wf(),
        r.user == user,
        r.next_deposit_id == 0,
        r.next_claim_id == 0,
        r.deposits@.len() == 0,
        r.claims@.len() == 0,
{
    UserAccount { user, next_deposit_id: 0, next_claim_id: 0, deposits: Vec::new(), claims: Vec::new() }
}

/// A fresh pool of `token` with weight `weight` in a registry whose reward
/// token is `reward_token`: no stake, index 0, never distributed, and the
/// reward pool exactly when it takes the reward token.
pub open spec fn new_pool(token: Key, weight: u64, reward_token: Key) -> Pool {
    Pool {
        deposit_token: token,
        is_reward_pool: token == reward_token,
        pool_weight: weight,
        staking_amount: 0,
        weighted_staking_amount: 0,
        reward_index_mul: 0,
        distributed_rewards: 0,
        total_locked_rewards: 0,
        last_distribute_time: 0,
    }
}

/// Appends a pool of `token` with weight `pool_weight` and adds the weight to
/// the total; the pool is the reward pool exactly when `token` is the reward
/// token. Fails when `token` already has a pool, or the total would overflow.
pub fn register_pool(global: &mut GlobalAccount, token: Key, pool_weight: u64) -> (r:
    Result<(), ErrorCode>)
    requires
        old(global).wf(),
    ensures
        final(global).wf(),
        has_pool(old(global).pools@, token) ==> r == Err::<(), ErrorCode>(
            ErrorCode::PoolAlreadyExists,
        ),
        !has_pool(old(global).pools@, token) && old(global).total_pool_weight + pool_weight
            > u64::MAX ==> r == Err::<(), ErrorCode>(ErrorCode::MathOverflow),
        r is Err ==> final(global).same_as(old(global)),
        r is Ok <==> !has_pool(old(global).pools@, token) && old(global).total_pool_weight
            + pool_weight <= u64::MAX,
        r is Ok ==> {
            &&& final(global).pools@ == old(global).pools@.push(
                new_pool(token, pool_weight, old(global).reward_token),
            )
            &&& final(global).total_pool_weight == old(global).total_pool_weight + pool_weight
            &&& final(global).reward_token == old(global).reward_token
            &&& final(global).rewards_per_second == old(global).rewards_per_second
            &&& final(global).locked_reward_withdraw_interval
                == old(global).locked_reward_withdraw_interval
            &&& final(global).locked_reward_multiplier_mul
                == old(global).locked_reward_multiplier_mul
            &&& final(global).locked_reward_withdraw_count
                == old(global).locked_reward_withdraw_count
            &&& final(global).lock_unit_duration == old(global).lock_unit_duration
            &&& final(global).lock_unit_multiplier_mul == old(global).lock_unit_multiplier_mul
            &&& final(global).max_lock_units == old(global).max_lock_units
            &&& final(global).total_distributed_rewards
                == old(global).total_distributed_rewards
        },
{
    if find_pool(&global.pools, &token).is_some() {
        return Err(ErrorCode::PoolAlreadyExists);
    }
    if global.total_pool_weight > u64::MAX - pool_weight {
        return Err(ErrorCode::MathOverflow);
    }
    let is_reward_pool = token.same(&global.reward_token);
    let ghost pools0 = global.pools@;
    global.total_pool_weight = global.total_pool_weight + pool_weight;
    global.pools.push(
        Pool {
            deposit_token: token,
            is_reward_pool,
            pool_weight,
            staking_amount: 0,
            weighted_staking_amount: 0,
            reward_index_mul: 0,
            distributed_rewards: 0,
            total_locked_rewards: 0,
            last_distribute_time: 0,
        },
    );
    proof {
        assert(global.pools@.drop_last() =~= pools0);
        assert(unique_tokens(global.pools@)) by {
            assert forall|i: int, j: int|
                0 <= i < global.pools@.len() && 0 <= j < global.pools@.len() && i != j implies #[trigger] global.pools@[i].deposit_token
                != #[trigger] global.pools@[j].deposit_token by {
                if i == pools0.len() {
                    assert(pools0[j].deposit_token != token);
                } else if j == pools0.len() {
                    assert(pools0[i].deposit_token != token);
                }
            }
        }
    }
    Ok(())
}

} // verus!

//! Distribution: advances every active pool's reward index from the time
//! that has passed since its last distribution.

use vstd::prelude::*;
use crate::accounts::{unique_tokens, GlobalAccount, Pool};
use crate::staking::lemma_same_weights;
use crate::errors::ErrorCode;
use crate::fixed_point::{
    index_increment, index_increment_of, pool_rewards, pool_rewards_of, share_exceeds,
};

verus! {

/// Rewards at or below this amount are left for a later distribution.
pub const DUST_THRESHOLD: u64 = 10000;

/// The reward that pool `p` earns at `now` and the index increment it gives,
/// both 0 when nothing accrues. The exact share, before rounding, must be
/// above the dust threshold; the reward is that share rounded down.
pub open spec fn accrual_of(p: Pool, now: i64, rate: u64, total_weight: u64) -> (int, int) {
    if p.last_distribute_time > 0 && now > p.last_distribute_time {
        let elapsed = now - p.last_distribute_time;
        let rewards = pool_rewards_of(elapsed, rate as int, p.pool_weight as int, total_weight as int);
        if elapsed * rate * p.pool_weight > DUST_THRESHOLD * total_weight {
            (rewards, index_increment_of(rewards, p.staking_amount + p.weighted_staking_amount))
        } else {
            (0, 0)
        }
    } else {
        (0, 0)
    }
}

/// The reward that a distribution at `now` credits to pool `p`.
pub open spec fn pool_reward(p: Pool, now: i64, rate: u64, total_weight: u64) -> int {
    if p.staking_amount == 0 {
        0
    } else {
        accrual_of(p, now, rate, total_weight).0
    }
}

/// Pool `p` after a distribution at `now`; `None` when a value overflows.
/// A pool without stake is left as it is.
pub open spec fn distributed_pool(p: Pool, now: i64, rate: u64, total_weight: u64) -> Option<Pool> {
    if p.staking_amount == 0 {
        Some(p)
    } else {
        let (rewards, inc) = accrual_of(p, now, rate, total_weight);
        if rewards > u64::MAX || inc > u64::MAX || p.reward_index_mul + inc > u64::MAX
            || p.distributed_rewards + rewards > u64::MAX {
            None
        } else {
            Some(
                Pool {
                    reward_index_mul: (p.reward_index_mul + inc) as u64,
                    distributed_rewards: (p.distributed_rewards + rewards) as u64,
                    last_distribute_time: now,
                    ..p
                },
            )
        }
    }
}

/// All pools after a distribution at `now`, with the sum of their rewards;
/// `None` when a value overflows.
pub open spec fn distributed_pools(pools: Seq<Pool>, now: i64, rate: u64, total_weight: u64) -> Option<
    (Seq<Pool>, int),
>
    decreases pools.len(),
{
    if pools.len() == 0 {
        Some((Seq::empty(), 0))
    } else {
        match distributed_pools(pools.drop_last(), now, rate, total_weight) {
            None => None,
            Some((done, sum)) => match distributed_pool(pools.last(), now, rate, total_weight) {
                None => None,
                Some(p) => {
                    let total = sum + pool_reward(pools.last(), now, rate, total_weight);
                    if total > u64::MAX {
                        None
                    } else {
                        Some((done.push(p), total))
                    }
                },
            },
        }
    }
}

/// What `distribute` at `now` makes of `g0`; `None` when a value overflows.
pub open spec fn distribute_post(g0: GlobalAccount, g1: GlobalAccount, now: i64, r: Result<(), ErrorCode>) -> bool {
    if g0.total_pool_weight == 0 {
        r is Ok && g1.same_as(&g0)
    } else {
        match distributed_pools(g0.pools@, now, g0.rewards_per_second, g0.total_pool_weight) {
            Some((pools, sum)) if g0.total_distributed_rewards + sum <= u64::MAX => {
                &&& r is Ok
                &&& g1.pools@ == pools
                &&& g1.total_distributed_rewards == g0.total_distributed_rewards + sum
                &&& g1.reward_token == g0.reward_token
                &&& g1.rewards_per_second == g0.rewards_per_second
                &&& g1.locked_reward_withdraw_interval == g0.locked_reward_withdraw_interval
                &&& g1.locked_reward_multiplier_mul == g0.locked_reward_multiplier_mul
                &&& g1.locked_reward_withdraw_count == g0.locked_reward_withdraw_count
                &&& g1.total_pool_weight == g0.total_pool_weight
                &&& g1.lock_unit_duration == g0.lock_unit_duration
                &&& g1.lock_unit_multiplier_mul == g0.lock_unit_multiplier_mul
                &&& g1.max_lock_units == g0.max_lock_units
            },
            _ => r == Err::<(), ErrorCode>(ErrorCode::MathOverflow) && g1.same_as(&g0),
        }
    }
}

proof fn lemma_failure_extends(pools: Seq<Pool>, j: int, k: int, now: i64, rate: u64, total_weight: u64)
    requires
        0 <= j <= k <= pools.len(),
        distributed_pools(pools.subrange(0, j), now, rate, total_weight) is None,
    ensures
        distributed_pools(pools.subrange(0, k), now, rate, total_weight) is None,
    decreases k - j,
{
    if k > j {
        lemma_failure_extends(pools, j, k - 1, now, rate, total_weight);
        assert(pools.subrange(0, k).drop_last() =~= pools.subrange(0, k - 1));
    }
}

/// Reward that pool `pool` earns at `now` and the index increment it gives,
/// `(0, 0)` when nothing accrues; `None` when either does not fit in a `u64`.
pub fn calculate_distribute(pool: &Pool, now: i64, rewards_per_second: u64, total_pool_weight: u64) -> (r:
    Option<(u64, u64)>)
    requires
        total_pool_weight > 0,
        pool.staking_amount > 0,
    ensures
        r is None <==> (accrual_of(*pool, now, rewards_per_second, total_pool_weight).0 > u64::MAX
            || accrual_of(*pool, now, rewards_per_second, total_pool_weight).1 > u64::MAX),
        r matches Some((rewards, inc)) ==> rewards == accrual_of(
            *pool,
            now,
            rewards_per_second,
            total_pool_weight,
        ).0 && inc == accrual_of(*pool, now, rewards_per_second, total_pool_weight).1,
{
    let last = pool.last_distribute_time;
    if last > 0 && now > last {
        let elapsed: u64 = (now - last) as u64;
        if !share_exceeds(elapsed, rewards_per_second, pool.pool_weight, total_pool_weight, DUST_THRESHOLD) {
            return Some((0, 0));
        }
        match pool_rewards(elapsed, rewards_per_second, pool.pool_weight, total_pool_weight) {
            None => None,
            Some(rewards) => match index_increment(rewards, pool.staking_amount, pool.weighted_staking_amount) {
                None => None,
                Some(inc) => Some((rewards, inc)),
            },
        }
    } else {
        Some((0, 0))
    }
}

/// Advances the reward index of every pool with stake from the time passed
/// since its last distribution. Does nothing while the registry has no weight.
pub fn distribute(global: &mut GlobalAccount, now: i64) -> (r: Result<(), ErrorCode>)
    ensures
        distribute_post(*old(global), *final(global), now, r),
        old(global).wf() ==> final(global).wf(),
        final(global).pools@.len() == old(global).pools@.len(),
        forall|i: int|
            0 <= i < old(global).pools@.len() ==> (#[trigger] final(global).pools@[i]).reward_index_mul
                >= old(global).pools@[i].reward_index_mul,
{
    if global.total_pool_weight == 0 {
        return Ok(());
    }
    let rate = global.rewards_per_second;
    let total_weight = global.total_pool_weight;
    let ghost pools0 = global.pools@;
    let mut next: Vec<Pool> = Vec::new();
    let mut all_rewards: u64 = 0;
    let mut i: usize = 0;
    while i < global.pools.len()
        invariant
            i <= pools0.len(),
            *global == *old(global),
            pools0 == old(global).pools@,
            rate == old(global).rewards_per_second,
            total_weight == old(global).total_pool_weight,
            total_weight > 0,
            distributed_pools(pools0.subrange(0, i as int), now, rate, total_weight) == Some(
                (next@, all_rewards as int),
            ),
            next@.len() == i,
            forall|j: int|
                0 <= j < i ==> (#[trigger] next@[j]).deposit_token == pools0[j].deposit_token
                    && next@[j].pool_weight == pools0[j].pool_weight,
        decreases pools0.len() - i,
    {
        let pool = global.pools[i];
        proof {
            assert(pools0.subrange(0, i + 1).drop_last() =~= pools0.subrange(0, i as int));
            assert(pools0.subrange(0, i + 1).last() == pool);
        }
        if pool.staking_amount > 0 {
            let step = calculate_distribute(&pool, now, rate, total_weight);
            match step {
                None => {
                    proof {
                        assert(distributed_pool(pool, now, rate, total_weight) is None);
                        assert(distributed_pools(pools0.subrange(0, i + 1), now, rate, total_weight) is None);
                        lemma_failure_extends(pools0, i + 1, pools0.len() as int, now, rate, total_weight);
                        assert(pools0.subrange(0, pools0.len() as int) =~= pools0);
                    }
                    return Err(ErrorCode::MathOverflow);
                },
                Some((rewards, inc)) => {
                    if pool.reward_index_mul > u64::MAX - inc || pool.distributed_rewards
                        > u64::MAX - rewards || all_rewards > u64::MAX - rewards {
                        proof {
                            assert(pool_reward(pool, now, rate, total_weight) == rewards);
                            assert(distributed_pools(pools0.subrange(0, i + 1), now, rate, total_weight) is None);
                            lemma_failure_extends(pools0, i + 1, pools0.len() as int, now, rate, total_weight);
                            assert(pools0.subrange(0, pools0.len() as int) =~= pools0);
                        }
                        return Err(ErrorCode::MathOverflow);
                    }
                    next.push(
                        Pool {
                            reward_index_mul: pool.reward_index_mul + inc,
                            distributed_rewards: pool.distributed_rewards + rewards,
                            last_distribute_time: now,
                            ..pool
                        },
                    );
                    all_rewards = all_rewards + rewards;
                },
            }
        } else {
            next.push(pool);
        }
        i = i + 1;
    }
    proof {
        assert(pools0.subrange(0, pools0.len() as int) =~= pools0);
    }
    if global.total_distributed_rewards > u64::MAX - all_rewards {
        return Err(ErrorCode::MathOverflow);
    }
    global.pools = next;
    global.total_distributed_rewards = global.total_distributed_rewards + all_rewards;
    proof {
        if old(global).wf() {
            assert(unique_tokens(global.pools@)) by {
                assert forall|a: int, b: int|
                    0 <= a < global.pools@.len() && 0 <= b < global.pools@.len() && a != b implies #[trigger] global.pools@[a].deposit_token
                    != #[trigger] global.pools@[b].deposit_token by {
                    assert(pools0[a].deposit_token != pools0[b].deposit_token);
                }
            }
            lemma_same_weights(pools0, global.pools@);
        }
        assert(distribute_post(*old(global), *global, now, Ok(())));
        crate::laws::lemma_index_monotonic(*old(global), *global, now, Ok(()));
    }
    Ok(())
}

} // verus!

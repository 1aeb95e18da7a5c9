//! Properties that hold across the operations of the ledger.

use vstd::prelude::*;
use crate::accounts::{
    claim_index, deposit_index, has_claim, lemma_deposit_index, lemma_pool_index, pool_index,
    unique_claim_ids, Deposit, GlobalAccount, Key, Pool, UserAccount,
};
use crate::claim::{claim_post, deposit_rewards_of};
use crate::distribute::{
    accrual_of, distribute_post, distributed_pool, distributed_pools, DUST_THRESHOLD,
};
use crate::errors::ErrorCode;
use crate::staking::{stake_post, unstake_post};
use crate::withdraw::{tranches_due, withdraw_post};

verus! {

/// Sum of the principals of the deposits of `token`.
pub open spec fn staked_in(deposits: Seq<Deposit>, token: Key) -> int
    decreases deposits.len(),
{
    if deposits.len() == 0 {
        0
    } else {
        staked_in(deposits.drop_last(), token) + if deposits.last().deposit_token == token {
            deposits.last().amount as int
        } else {
            0
        }
    }
}

/// Every pool's stake is what the deposits of `u` hold in it, save `others[i]`
/// held by other ledgers.
pub open spec fn stake_accounted(g: GlobalAccount, u: UserAccount, others: Seq<int>) -> bool {
    &&& others.len() == g.pools@.len()
    &&& forall|i: int|
        0 <= i < g.pools@.len() ==> #[trigger] g.pools@[i].staking_amount == staked_in(
            u.deposits@,
            g.pools@[i].deposit_token,
        ) + others[i]
}

proof fn lemma_staked_in_push(deposits: Seq<Deposit>, d: Deposit, token: Key)
    ensures
        staked_in(deposits.push(d), token) == staked_in(deposits, token) + if d.deposit_token
            == token {
            d.amount as int
        } else {
            0
        },
{
    assert(deposits.push(d).drop_last() =~= deposits);
}

proof fn lemma_staked_in_remove(deposits: Seq<Deposit>, k: int, token: Key)
    requires
        0 <= k < deposits.len(),
    ensures
        staked_in(deposits.remove(k), token) == staked_in(deposits, token) - if deposits[k].deposit_token
            == token {
            deposits[k].amount as int
        } else {
            0
        },
    decreases deposits.len(),
{
    if k == deposits.len() - 1 {
        assert(deposits.remove(k) =~= deposits.drop_last());
    } else {
        lemma_staked_in_remove(deposits.drop_last(), k, token);
        assert(deposits.remove(k).drop_last() =~= deposits.drop_last().remove(k));
        assert(deposits.remove(k).last() == deposits.last());
    }
}

/// Staking keeps every pool's stake equal to the principals of the deposits
/// routed to it: the principal joins both the pool and the deposit ledger.
pub proof fn lemma_stake_conserves(
    g0: GlobalAccount,
    u0: UserAccount,
    g1: GlobalAccount,
    u1: UserAccount,
    token: Key,
    amount: u64,
    lock_units: u8,
    now: i64,
    r: Result<(), ErrorCode>,
    others: Seq<int>,
)
    requires
        g0.wf(),
        stake_post(g0, u0, g1, u1, token, amount, lock_units, now, r),
        stake_accounted(g0, u0, others),
    ensures
        stake_accounted(g1, u1, others),
{
    if r is Ok {
        let si = pool_index(g0.pools@, token);
        let d = u1.deposits@.last();
        assert(u1.deposits@.drop_last() =~= u0.deposits@);
        assert forall|i: int| 0 <= i < g1.pools@.len() implies #[trigger] g1.pools@[i].staking_amount
            == staked_in(u1.deposits@, g1.pools@[i].deposit_token) + others[i] by {
            lemma_staked_in_push(u0.deposits@, d, g1.pools@[i].deposit_token);
            assert(u0.deposits@.push(d) == u1.deposits@);
            if i != si {
                assert(g0.pools@[i].deposit_token != g0.pools@[si].deposit_token);
            }
        }
    }
}

/// Unstaking keeps every pool's stake equal to the principals of the
/// deposits routed to it: the principal leaves both.
pub proof fn lemma_unstake_conserves(
    g0: GlobalAccount,
    u0: UserAccount,
    g1: GlobalAccount,
    u1: UserAccount,
    deposit_id: u16,
    r: Result<Deposit, ErrorCode>,
    others: Seq<int>,
)
    requires
        g0.wf(),
        unstake_post(g0, u0, g1, u1, deposit_id, r),
        stake_accounted(g0, u0, others),
    ensures
        stake_accounted(g1, u1, others),
{
    if r is Ok {
        let k = deposit_index(u0.deposits@, deposit_id);
        let d = u0.deposits@[k];
        let si = pool_index(g0.pools@, d.deposit_token);
        assert forall|i: int| 0 <= i < g1.pools@.len() implies #[trigger] g1.pools@[i].staking_amount
            == staked_in(u1.deposits@, g1.pools@[i].deposit_token) + others[i] by {
            lemma_staked_in_remove(u0.deposits@, k, g1.pools@[i].deposit_token);
            if i != si {
                assert(g0.pools@[i].deposit_token != g0.pools@[si].deposit_token);
            }
        }
    }
}

/// One operation of a run that only stakes and unstakes, with its arguments
/// and result.
pub enum StakeStep {
    Stake { token: Key, amount: u64, lock_units: u8, now: i64, r: Result<(), ErrorCode> },
    Unstake { deposit_id: u16, r: Result<Deposit, ErrorCode> },
}

/// Whether `g1`, `u1` is what `step` makes of `g0`, `u0`.
pub open spec fn stake_step_post(
    g0: GlobalAccount,
    u0: UserAccount,
    g1: GlobalAccount,
    u1: UserAccount,
    step: StakeStep,
) -> bool {
    match step {
        StakeStep::Stake { token, amount, lock_units, now, r } => stake_post(
            g0,
            u0,
            g1,
            u1,
            token,
            amount,
            lock_units,
            now,
            r,
        ),
        StakeStep::Unstake { deposit_id, r } => unstake_post(g0, u0, g1, u1, deposit_id, r),
    }
}

/// Over any run of stakes and unstakes, every pool's stake stays the sum of
/// the principals of the live deposits routed to it (with what other ledgers
/// hold, `others`, left as it was).
pub proof fn lemma_conservation_over_runs(
    gs: Seq<GlobalAccount>,
    us: Seq<UserAccount>,
    steps: Seq<StakeStep>,
    others: Seq<int>,
    k: int,
)
    requires
        gs.len() == steps.len() + 1,
        us.len() == gs.len(),
        forall|j: int| 0 <= j < gs.len() ==> (#[trigger] gs[j]).wf(),
        forall|j: int|
            0 <= j < steps.len() ==> stake_step_post(
                #[trigger] gs[j],
                us[j],
                gs[j + 1],
                us[j + 1],
                steps[j],
            ),
        stake_accounted(gs[0], us[0], others),
        0 <= k < gs.len(),
    ensures
        stake_accounted(gs[k], us[k], others),
    decreases k,
{
    if k > 0 {
        lemma_conservation_over_runs(gs, us, steps, others, k - 1);
        assert(gs[k - 1].wf());
        assert(stake_step_post(gs[k - 1], us[k - 1], gs[k], us[k], steps[k - 1]));
        match steps[k - 1] {
            StakeStep::Stake { token, amount, lock_units, now, r } => {
                lemma_stake_conserves(
                    gs[k - 1],
                    us[k - 1],
                    gs[k],
                    us[k],
                    token,
                    amount,
                    lock_units,
                    now,
                    r,
                    others,
                );
            },
            StakeStep::Unstake { deposit_id, r } => {
                lemma_unstake_conserves(gs[k - 1], us[k - 1], gs[k], us[k], deposit_id, r, others);
            },
        }
    }
}

proof fn lemma_accrual_nonnegative(p: Pool, now: i64, rate: u64, total_weight: u64)
    requires
        total_weight > 0,
        p.staking_amount > 0,
    ensures
        accrual_of(p, now, rate, total_weight).0 >= 0,
        accrual_of(p, now, rate, total_weight).1 >= 0,
{
    if p.last_distribute_time > 0 && now > p.last_distribute_time {
        let elapsed = now - p.last_distribute_time;
        let x = elapsed * rate * p.pool_weight;
        if x > DUST_THRESHOLD * total_weight {
            vstd::arithmetic::mul::lemma_mul_nonnegative(DUST_THRESHOLD as int, total_weight as int);
            vstd::arithmetic::div_mod::lemma_div_pos_is_pos(x, total_weight as int);
            let rw = x / (total_weight as int);
            vstd::arithmetic::mul::lemma_mul_nonnegative(rw, 1_000_000_000);
            vstd::arithmetic::div_mod::lemma_div_pos_is_pos(
                rw * 1_000_000_000,
                p.staking_amount + p.weighted_staking_amount,
            );
        }
    }
}

proof fn lemma_distributed_each(pools: Seq<Pool>, now: i64, rate: u64, total_weight: u64)
    requires
        total_weight > 0,
        distributed_pools(pools, now, rate, total_weight) is Some,
    ensures
        ({
            let (done, sum) = distributed_pools(pools, now, rate, total_weight).unwrap();
            &&& done.len() == pools.len()
            &&& sum >= 0
            &&& forall|i: int|
                0 <= i < pools.len() ==> distributed_pool(#[trigger] pools[i], now, rate, total_weight)
                    == Some(done[i])
        }),
    decreases pools.len(),
{
    if pools.len() > 0 {
        lemma_distributed_each(pools.drop_last(), now, rate, total_weight);
        let (done, sum) = distributed_pools(pools, now, rate, total_weight).unwrap();
        let (d0, s0) = distributed_pools(pools.drop_last(), now, rate, total_weight).unwrap();
        assert(done == d0.push(distributed_pool(pools.last(), now, rate, total_weight).unwrap()));
        if pools.last().staking_amount > 0 {
            lemma_accrual_nonnegative(pools.last(), now, rate, total_weight);
        }
        assert forall|i: int| 0 <= i < pools.len() implies distributed_pool(
            #[trigger] pools[i],
            now,
            rate,
            total_weight,
        ) == Some(done[i]) by {
            if i < pools.len() - 1 {
                assert(pools[i] == pools.drop_last()[i]);
            }
        }
    }
}

/// Distribution never lowers a pool's reward index, and keeps the pools in
/// place.
pub proof fn lemma_index_monotonic(g0: GlobalAccount, g1: GlobalAccount, now: i64, r: Result<(), ErrorCode>)
    requires
        distribute_post(g0, g1, now, r),
    ensures
        g1.pools@.len() == g0.pools@.len(),
        forall|i: int|
            0 <= i < g0.pools@.len() ==> (#[trigger] g1.pools@[i]).reward_index_mul
                >= g0.pools@[i].reward_index_mul && g1.pools@[i].deposit_token
                == g0.pools@[i].deposit_token,
{
    if g0.total_pool_weight > 0 {
        if let Some((done, sum)) = distributed_pools(
            g0.pools@,
            now,
            g0.rewards_per_second,
            g0.total_pool_weight,
        ) {
            lemma_distributed_each(g0.pools@, now, g0.rewards_per_second, g0.total_pool_weight);
            if g0.total_distributed_rewards + sum <= u64::MAX {
                assert forall|i: int| 0 <= i < g0.pools@.len() implies (#[trigger] g1.pools@[i]).reward_index_mul
                    >= g0.pools@[i].reward_index_mul && g1.pools@[i].deposit_token
                    == g0.pools@[i].deposit_token by {
                    assert(distributed_pool(g0.pools@[i], now, g0.rewards_per_second, g0.total_pool_weight)
                        == Some(done[i]));
                    let p = g0.pools@[i];
                    if p.staking_amount > 0 {
                        lemma_accrual_nonnegative(p, now, g0.rewards_per_second, g0.total_pool_weight);
                    }
                }
            }
        }
    }
}

/// Over any run of distributions, every pool's reward index only grows.
pub proof fn lemma_index_monotonic_over_runs(
    states: Seq<GlobalAccount>,
    times: Seq<i64>,
    results: Seq<Result<(), ErrorCode>>,
    a: int,
    b: int,
    i: int,
)
    requires
        times.len() + 1 == states.len(),
        results.len() == times.len(),
        forall|k: int|
            0 <= k < times.len() ==> distribute_post(
                #[trigger] states[k],
                states[k + 1],
                times[k],
                results[k],
            ),
        0 <= a <= b < states.len(),
        0 <= i < states[a].pools@.len(),
    ensures
        i < states[b].pools@.len(),
        states[b].pools@[i].reward_index_mul >= states[a].pools@[i].reward_index_mul,
    decreases b - a,
{
    if a < b {
        lemma_index_monotonic(states[a], states[a + 1], times[a], results[a]);
        lemma_index_monotonic_over_runs(states, times, results, a + 1, b, i);
    }
}

/// A pool whose exact share for the elapsed time is at most the dust threshold
/// keeps its index and distributed rewards; only its distribution time
/// advances.
pub proof fn lemma_dust_gate(g0: GlobalAccount, g1: GlobalAccount, now: i64, i: int)
    requires
        distribute_post(g0, g1, now, Ok(())),
        g0.total_pool_weight > 0,
        0 <= i < g0.pools@.len(),
        g0.pools@[i].staking_amount > 0,
        (now - g0.pools@[i].last_distribute_time) * g0.rewards_per_second * g0.pools@[i].pool_weight
            <= DUST_THRESHOLD * g0.total_pool_weight,
    ensures
        g1.pools@[i] == (Pool { last_distribute_time: now, ..g0.pools@[i] }),
{
    lemma_distributed_each(g0.pools@, now, g0.rewards_per_second, g0.total_pool_weight);
    let (done, sum) = distributed_pools(
        g0.pools@,
        now,
        g0.rewards_per_second,
        g0.total_pool_weight,
    ).unwrap();
    assert(distributed_pool(g0.pools@[i], now, g0.rewards_per_second, g0.total_pool_weight)
        == Some(done[i]));
}

/// A second claim of the same deposit, with no distribution in between,
/// finds nothing to realise.
pub proof fn lemma_no_double_accrual(
    g0: GlobalAccount,
    u0: UserAccount,
    g1: GlobalAccount,
    u1: UserAccount,
    g2: GlobalAccount,
    u2: UserAccount,
    deposit_token: Key,
    deposit_id: u16,
    now1: i64,
    now2: i64,
    r2: Result<(), ErrorCode>,
)
    requires
        g0.wf(),
        u0.wf(),
        g1.wf(),
        u1.wf(),
        claim_post(g0, u0, g1, u1, deposit_token, deposit_id, now1, Ok(())),
        claim_post(g1, u1, g2, u2, deposit_token, deposit_id, now2, r2),
    ensures
        r2 == Err::<(), ErrorCode>(ErrorCode::ZeroClaimAmount),
{
    let pools0 = g0.pools@;
    let pools1 = g1.pools@;
    let si = pool_index(pools0, deposit_token);
    let ri = pool_index(pools0, g0.reward_token);
    let k = deposit_index(u0.deposits@, deposit_id);
    assert(pools1.len() == pools0.len());
    assert(pools1[si].deposit_token == deposit_token);
    assert(pools1[ri].deposit_token == g0.reward_token);
    lemma_pool_index(pools1, si);
    lemma_pool_index(pools1, ri);
    assert(pools1[si].reward_index_mul == pools0[si].reward_index_mul);
    lemma_deposit_index(u1.deposits@, k);
    let d1 = u1.deposits@[k];
    assert(d1.reward_index_mul == pools1[si].reward_index_mul);
    assert(deposit_rewards_of(d1, pools1[si].reward_index_mul) == 0);
}

/// After a successful withdrawal the claim stays in the ledger exactly when
/// tranches of it are left, and no claim has paid out all its tranches.
pub proof fn lemma_vesting_bound(
    g0: GlobalAccount,
    u0: UserAccount,
    g1: GlobalAccount,
    u1: UserAccount,
    claim_id: u16,
    now: i64,
    paid: u64,
)
    requires
        u0.wf(),
        u0.vesting_wf(g0.locked_reward_withdraw_count),
        u1.vesting_wf(g0.locked_reward_withdraw_count),
        withdraw_post(g0, u0, g1, u1, claim_id, now, Ok(paid)),
    ensures
        has_claim(u1.claims@, claim_id) <==> u0.claims@[claim_index(u0.claims@, claim_id)].withdrawn_count
            + tranches_due(g0, u0.claims@[claim_index(u0.claims@, claim_id)], now)
            < g0.locked_reward_withdraw_count,
        forall|j: int|
            0 <= j < u1.claims@.len() ==> (#[trigger] u1.claims@[j]).withdrawn_count
                < g0.locked_reward_withdraw_count,
{
    let j = claim_index(u0.claims@, claim_id);
    let c = u0.claims@[j];
    let count = c.withdrawn_count + tranches_due(g0, c, now);
    if count < g0.locked_reward_withdraw_count {
        assert(u1.claims@[j].id == claim_id);
    } else {
        if has_claim(u1.claims@, claim_id) {
            let a = choose|a: int| 0 <= a < u1.claims@.len() && u1.claims@[a].id == claim_id;
            let a0 = if a < j { a } else { a + 1 };
            assert(u0.claims@[a0].id == claim_id);
            assert(unique_claim_ids(u0.claims@));
            assert(false);
        }
    }
}

} // verus!

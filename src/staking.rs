//! The deposit ledger: staking into a pool and leaving it.

use vstd::prelude::*;
use crate::accounts::{
    deposit_index, find_deposit, find_pool, has_deposit, has_pool, lemma_deposit_index,
    lemma_pool_index, pool_index, Deposit, GlobalAccount, Key, Pool, UserAccount,
};
use crate::errors::ErrorCode;
use crate::fixed_point::{calculate_weighted_amount, weighted_amount_of};

verus! {

/// Pool `p` with `amount` added to its stake and `weighted` to its boost
/// (negative values take them away).
pub open spec fn restaked(p: Pool, amount: int, weighted: int) -> Pool {
    Pool {
        staking_amount: (p.staking_amount + amount) as u64,
        weighted_staking_amount: (p.weighted_staking_amount + weighted) as u64,
        ..p
    }
}

/// The outcome of `stake` on `g0`, `u0`: `g1`, `u1` and `r`.
pub open spec fn stake_post(
    g0: GlobalAccount,
    u0: UserAccount,
    g1: GlobalAccount,
    u1: UserAccount,
    token: Key,
    amount: u64,
    lock_units: u8,
    now: i64,
    r: Result<(), ErrorCode>,
) -> bool {
    let i = pool_index(g0.pools@, token);
    let p = g0.pools@[i];
    let w = weighted_amount_of(amount as int, lock_units as int, g0.lock_unit_multiplier_mul as int);
    if amount == 0 {
        r == Err::<(), ErrorCode>(ErrorCode::InvalidStakingAmount) && g1.same_as(&g0) && u1.same_as(&u0)
    } else if lock_units > g0.max_lock_units {
        r == Err::<(), ErrorCode>(ErrorCode::InvalidLockUnit) && g1.same_as(&g0) && u1.same_as(&u0)
    } else if !has_pool(g0.pools@, token) {
        r == Err::<(), ErrorCode>(ErrorCode::PoolNotFound) && g1.same_as(&g0) && u1.same_as(&u0)
    } else if w > u64::MAX || p.staking_amount + amount > u64::MAX || p.weighted_staking_amount + w
        > u64::MAX || u0.next_deposit_id == u16::MAX {
        r == Err::<(), ErrorCode>(ErrorCode::MathOverflow) && g1.same_as(&g0) && u1.same_as(&u0)
    } else {
        &&& r is Ok
        &&& g1.same_settings(&g0)
        &&& g1.pools@ == g0.pools@.update(i, restaked(p, amount as int, w))
        &&& u1.user == u0.user
        &&& u1.next_deposit_id == u0.next_deposit_id + 1
        &&& u1.next_claim_id == u0.next_claim_id
        &&& u1.claims@ == u0.claims@
        &&& u1.deposits@ == u0.deposits@.push(
            Deposit {
                id: u0.next_deposit_id,
                deposit_token: token,
                amount,
                reward_index_mul: p.reward_index_mul,
                weighted_amount: w as u64,
                deposit_time: now,
                lock_units,
            },
        )
    }
}

/// The outcome of `unstake` on `g0`, `u0`: `g1`, `u1` and `r`.
pub open spec fn unstake_post(
    g0: GlobalAccount,
    u0: UserAccount,
    g1: GlobalAccount,
    u1: UserAccount,
    deposit_id: u16,
    r: Result<Deposit, ErrorCode>,
) -> bool {
    let k = deposit_index(u0.deposits@, deposit_id);
    let d = u0.deposits@[k];
    let i = pool_index(g0.pools@, d.deposit_token);
    let p = g0.pools@[i];
    if !has_deposit(u0.deposits@, deposit_id) {
        r == Err::<Deposit, ErrorCode>(ErrorCode::InvalidDepositId) && g1.same_as(&g0) && u1.same_as(&u0)
    } else if !has_pool(g0.pools@, d.deposit_token) {
        r == Err::<Deposit, ErrorCode>(ErrorCode::PoolNotFound) && g1.same_as(&g0) && u1.same_as(&u0)
    } else if p.staking_amount < d.amount || p.weighted_staking_amount < d.weighted_amount {
        r == Err::<Deposit, ErrorCode>(ErrorCode::InsufficientFundsStaked) && g1.same_as(&g0)
            && u1.same_as(&u0)
    } else {
        &&& r == Ok::<Deposit, ErrorCode>(d)
        &&& g1.same_settings(&g0)
        &&& g1.pools@ == g0.pools@.update(i, restaked(p, -d.amount, -d.weighted_amount))
        &&& u1.user == u0.user
        &&& u1.next_deposit_id == u0.next_deposit_id
        &&& u1.next_claim_id == u0.next_claim_id
        &&& u1.claims@ == u0.claims@
        &&& u1.deposits@ == u0.deposits@.remove(k)
    }
}

/// Stakes `amount` of `token` locked for `lock_units` units at `now`: the
/// new deposit starts from the pool's current index, so it earns nothing
/// that was distributed before. Returns nothing; the caller moves the tokens.
pub fn stake(
    global: &mut GlobalAccount,
    user: &mut UserAccount,
    token: Key,
    amount: u64,
    lock_units: u8,
    now: i64,
) -> (r: Result<(), ErrorCode>)
    requires
        old(global).wf(),
        old(user).wf(),
    ensures
        final(global).wf(),
        final(user).wf(),
        forall|count: u8| old(user).vesting_wf(count) ==> final(user).vesting_wf(count),
        stake_post(*old(global), *old(user), *final(global), *final(user), token, amount, lock_units, now, r),
{
    if amount == 0 {
        return Err(ErrorCode::InvalidStakingAmount);
    }
    if lock_units as u64 > global.max_lock_units {
        return Err(ErrorCode::InvalidLockUnit);
    }
    let i = match find_pool(&global.pools, &token) {
        None => {
            return Err(ErrorCode::PoolNotFound);
        },
        Some(i) => i,
    };
    proof {
        lemma_pool_index(global.pools@, i as int);
    }
    let pool = global.pools[i];
    let weighted_amount = match calculate_weighted_amount(amount, lock_units, global.lock_unit_multiplier_mul) {
        None => {
            return Err(ErrorCode::MathOverflow);
        },
        Some(w) => w,
    };
    if pool.staking_amount > u64::MAX - amount || pool.weighted_staking_amount > u64::MAX
        - weighted_amount || user.next_deposit_id == u16::MAX {
        return Err(ErrorCode::MathOverflow);
    }
    let deposit = Deposit {
        id: user.next_deposit_id,
        deposit_token: token,
        amount,
        reward_index_mul: pool.reward_index_mul,
        weighted_amount,
        deposit_time: now,
        lock_units,
    };
    let ghost deposits0 = user.deposits@;
    user.deposits.push(deposit);
    user.next_deposit_id = user.next_deposit_id + 1;
    global.pools.set(
        i,
        Pool {
            staking_amount: pool.staking_amount + amount,
            weighted_staking_amount: pool.weighted_staking_amount + weighted_amount,
            ..pool
        },
    );
    proof {
        assert(user.deposits@[deposits0.len() as int] == deposit);
        assert forall|j: int| 0 <= j < deposits0.len() implies user.deposits@[j] == deposits0[j] by {}
        assert(crate::accounts::unique_tokens(global.pools@)) by {
            assert forall|a: int, b: int|
                0 <= a < global.pools@.len() && 0 <= b < global.pools@.len() && a != b implies #[trigger] global.pools@[a].deposit_token
                != #[trigger] global.pools@[b].deposit_token by {
                assert(old(global).pools@[a].deposit_token != old(global).pools@[b].deposit_token);
            }
        }
        lemma_same_weights(old(global).pools@, global.pools@);
        assert forall|count: u8| old(user).vesting_wf(count) implies user.vesting_wf(count) by {
            assert(user.claims@ == old(user).claims@);
        }
    }
    Ok(())
}

/// Ends deposit `deposit_id`: its principal and boost leave the pool and the
/// deposit is removed. Rewards it has not claimed are forfeited. Returns the
/// removed deposit, whose `amount` goes back to the user.
pub fn unstake(global: &mut GlobalAccount, user: &mut UserAccount, deposit_id: u16) -> (r: Result<
    Deposit,
    ErrorCode,
>)
    requires
        old(global).wf(),
        old(user).wf(),
    ensures
        final(global).wf(),
        final(user).wf(),
        forall|count: u8| old(user).vesting_wf(count) ==> final(user).vesting_wf(count),
        unstake_post(*old(global), *old(user), *final(global), *final(user), deposit_id, r),
{
    let k = match find_deposit(&user.deposits, deposit_id) {
        None => {
            return Err(ErrorCode::InvalidDepositId);
        },
        Some(k) => k,
    };
    proof {
        lemma_deposit_index(user.deposits@, k as int);
    }
    let deposit = user.deposits[k];
    let i = match find_pool(&global.pools, &deposit.deposit_token) {
        None => {
            return Err(ErrorCode::PoolNotFound);
        },
        Some(i) => i,
    };
    proof {
        lemma_pool_index(global.pools@, i as int);
    }
    let pool = global.pools[i];
    if pool.staking_amount < deposit.amount || pool.weighted_staking_amount < deposit.weighted_amount {
        return Err(ErrorCode::InsufficientFundsStaked);
    }
    global.pools.set(
        i,
        Pool {
            staking_amount: pool.staking_amount - deposit.amount,
            weighted_staking_amount: pool.weighted_staking_amount - deposit.weighted_amount,
            ..pool
        },
    );
    let removed = user.deposits.remove(k);
    proof {
        assert(crate::accounts::unique_tokens(global.pools@)) by {
            assert forall|a: int, b: int|
                0 <= a < global.pools@.len() && 0 <= b < global.pools@.len() && a != b implies #[trigger] global.pools@[a].deposit_token
                != #[trigger] global.pools@[b].deposit_token by {
                assert(old(global).pools@[a].deposit_token != old(global).pools@[b].deposit_token);
            }
        }
        lemma_same_weights(old(global).pools@, global.pools@);
        assert forall|count: u8| old(user).vesting_wf(count) implies user.vesting_wf(count) by {
            assert(user.claims@ == old(user).claims@);
        }
        assert forall|a: int, b: int|
            0 <= a < user.deposits@.len() && 0 <= b < user.deposits@.len() && a != b implies #[trigger] user.deposits@[a].id
            != #[trigger] user.deposits@[b].id by {
            let a0 = if a < k { a } else { a + 1 };
            let b0 = if b < k { b } else { b + 1 };
            assert(old(user).deposits@[a0].id != old(user).deposits@[b0].id);
        }
        assert forall|a: int| 0 <= a < user.deposits@.len() implies #[trigger] user.deposits@[a].id
            < user.next_deposit_id by {
            let a0 = if a < k { a } else { a + 1 };
            assert(old(user).deposits@[a0].id < old(user).next_deposit_id);
        }
    }
    Ok(removed)
}

/// Pools that differ only in their stakes have the same total weight.
pub proof fn lemma_same_weights(a: Seq<Pool>, b: Seq<Pool>)
    requires
        a.len() == b.len(),
        forall|i: int| 0 <= i < a.len() ==> #[trigger] a[i].pool_weight == b[i].pool_weight,
    ensures
        crate::accounts::total_weight(a) == crate::accounts::total_weight(b),
    decreases a.len(),
{
    if a.len() > 0 {
        lemma_same_weights(a.drop_last(), b.drop_last());
    }
}

} // verus!

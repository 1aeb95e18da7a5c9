//! Fixed-point helpers: amounts are integers and ratios are scaled by `UNIT`.
//! Every result is the exact quotient rounded toward zero.

use vstd::prelude::*;
use vstd::arithmetic::div_mod::*;
use vstd::arithmetic::mul::*;

verus! {

/// Scale of every reward index and multiplier.
pub const UNIT: u64 = 1_000_000_000;

/// `amount * lock_units * multiplier / UNIT`, rounded toward zero.
pub open spec fn weighted_amount_of(amount: int, lock_units: int, multiplier: int) -> int {
    amount * lock_units * multiplier / (UNIT as int)
}

/// `amount * multiplier / UNIT`, rounded toward zero.
pub open spec fn weighted_claim_amount_of(amount: int, multiplier: int) -> int {
    amount * multiplier / (UNIT as int)
}

/// What a value is worth once index `pool_index` has moved past `snapshot`
/// (nothing if it has not).
pub open spec fn index_delta(pool_index: u64, snapshot: u64) -> int {
    if pool_index > snapshot {
        pool_index - snapshot
    } else {
        0
    }
}

/// Reward accrued by `stake` units between `snapshot` and `pool_index`.
pub open spec fn accrued_of(stake: int, pool_index: u64, snapshot: u64) -> int {
    index_delta(pool_index, snapshot) * stake / (UNIT as int)
}

proof fn lemma_quotient_over_u64(x: int)
    requires
        x > u128::MAX,
    ensures
        x / (UNIT as int) > u64::MAX,
{
    lemma_div_is_ordered(u128::MAX as int, x, UNIT as int);
    assert((u128::MAX as int) / (UNIT as int) > u64::MAX);
}

/// Lock-boosted weight of a stake of `amount` held for `lock_units` units;
/// `None` when it does not fit in a `u64`.
pub fn calculate_weighted_amount(amount: u64, lock_units: u8, lock_unit_multiplier_mul: u64) -> (r:
    Option<u64>)
    ensures
        weighted_amount_of(amount as int, lock_units as int, lock_unit_multiplier_mul as int)
            <= u64::MAX ==> r == Some(
            weighted_amount_of(
                amount as int,
                lock_units as int,
                lock_unit_multiplier_mul as int,
            ) as u64,
        ),
        weighted_amount_of(amount as int, lock_units as int, lock_unit_multiplier_mul as int)
            > u64::MAX ==> r is None,
{
    proof {
        lemma_mul_upper_bound(amount as int, u64::MAX as int, lock_unit_multiplier_mul as int, u64::MAX as int);
        assert((u64::MAX as int) * (u64::MAX as int) <= u128::MAX);
        lemma_mul_is_commutative(amount as int, lock_units as int);
        lemma_mul_is_associative(lock_units as int, amount as int, lock_unit_multiplier_mul as int);
        lemma_mul_is_commutative(lock_units as int, amount as int * lock_unit_multiplier_mul as int);
    }
    let p: u128 = amount as u128 * lock_unit_multiplier_mul as u128;
    match p.checked_mul(lock_units as u128) {
        None => {
            proof {
                lemma_quotient_over_u64(p * lock_units);
            }
            None
        },
        Some(q) => {
            let w: u128 = q / (UNIT as u128);
            if w <= u64::MAX as u128 {
                Some(w as u64)
            } else {
                None
            }
        },
    }
}

/// Weight that a vesting claim of `amount` adds to the reward pool;
/// `None` when it does not fit in a `u64`.
pub fn calculate_weighted_claim_amount(amount: u64, multiplier: u64) -> (r: Option<u64>)
    ensures
        weighted_claim_amount_of(amount as int, multiplier as int) <= u64::MAX ==> r == Some(
            weighted_claim_amount_of(amount as int, multiplier as int) as u64,
        ),
        weighted_claim_amount_of(amount as int, multiplier as int) > u64::MAX ==> r is None,
{
    proof {
        lemma_mul_upper_bound(amount as int, u64::MAX as int, multiplier as int, u64::MAX as int);
        assert((u64::MAX as int) * (u64::MAX as int) <= u128::MAX);
    }
    let p: u128 = amount as u128 * multiplier as u128;
    let w: u128 = p / (UNIT as u128);
    if w <= u64::MAX as u128 {
        Some(w as u64)
    } else {
        None
    }
}

proof fn lemma_split_quotient(x: int, y: int)
    requires
        x >= 0,
        y >= 0,
    ensures
        (x + y) / (UNIT as int) == x / (UNIT as int) + y / (UNIT as int) + (x % (UNIT as int) + y
            % (UNIT as int)) / (UNIT as int),
{
    let u = UNIT as int;
    lemma_fundamental_div_mod(x, u);
    lemma_fundamental_div_mod(y, u);
    let s = x % u + y % u;
    lemma_fundamental_div_mod(s, u);
    lemma_mod_bound(x, u);
    lemma_mod_bound(y, u);
    lemma_mod_bound(s, u);
    let q = x / u + y / u + s / u;
    assert(x + y == q * u + s % u) by {
        lemma_mul_is_distributive_add_other_way(u, x / u + y / u, s / u);
        lemma_mul_is_distributive_add_other_way(u, x / u, y / u);
    }
    lemma_fundamental_div_mod_converse(x + y, u, q, s % u);
}

/// Reward that a stake of `stake_a + stake_b` units has accrued while the
/// index moved from `snapshot` to `pool_index`; `None` when it does not fit
/// in a `u64`.
pub fn accrue(stake_a: u64, stake_b: u64, pool_index: u64, snapshot: u64) -> (r: Option<u64>)
    ensures
        accrued_of(stake_a + stake_b, pool_index, snapshot) <= u64::MAX ==> r == Some(
            accrued_of(stake_a + stake_b, pool_index, snapshot) as u64,
        ),
        accrued_of(stake_a + stake_b, pool_index, snapshot) > u64::MAX ==> r is None,
{
    let delta: u64 = if pool_index > snapshot {
        pool_index - snapshot
    } else {
        0
    };
    proof {
        lemma_mul_upper_bound(delta as int, u64::MAX as int, stake_a as int, u64::MAX as int);
        lemma_mul_upper_bound(delta as int, u64::MAX as int, stake_b as int, u64::MAX as int);
        assert((u64::MAX as int) * (u64::MAX as int) <= u128::MAX);
        lemma_mul_is_distributive_add(delta as int, stake_a as int, stake_b as int);
        lemma_mul_nonnegative(delta as int, stake_a as int);
        lemma_mul_nonnegative(delta as int, stake_b as int);
    }
    let x: u128 = delta as u128 * stake_a as u128;
    let y: u128 = delta as u128 * stake_b as u128;
    let u: u128 = UNIT as u128;
    proof {
        lemma_split_quotient(x as int, y as int);
        lemma_div_is_ordered(x as int, u128::MAX as int, UNIT as int);
        lemma_div_is_ordered(y as int, u128::MAX as int, UNIT as int);
        assert((u128::MAX as int) / (UNIT as int) < u64::MAX * u64::MAX);
    }
    let total: u128 = x / u + y / u + (x % u + y % u) / u;
    if total <= u64::MAX as u128 {
        Some(total as u64)
    } else {
        None
    }
}

/// Share of the reward stream that a pool of weight `weight` earns over
/// `elapsed` seconds, rounded toward zero.
pub open spec fn pool_rewards_of(elapsed: int, rate: int, weight: int, total_weight: int) -> int {
    elapsed * rate * weight / total_weight
}

/// Index increment that spreads `rewards` over `stake` units.
pub open spec fn index_increment_of(rewards: int, stake: int) -> int {
    rewards * (UNIT as int) / stake
}

/// `elapsed * rate * weight / total_weight`, rounded toward zero; `None` when
/// it does not fit in a `u64`.
pub fn pool_rewards(elapsed: u64, rate: u64, weight: u64, total_weight: u64) -> (r: Option<u64>)
    requires
        total_weight > 0,
    ensures
        pool_rewards_of(elapsed as int, rate as int, weight as int, total_weight as int)
            <= u64::MAX ==> r == Some(
            pool_rewards_of(elapsed as int, rate as int, weight as int, total_weight as int) as u64,
        ),
        pool_rewards_of(elapsed as int, rate as int, weight as int, total_weight as int)
            > u64::MAX ==> r is None,
{
    proof {
        lemma_mul_upper_bound(elapsed as int, u64::MAX as int, rate as int, u64::MAX as int);
        assert((u64::MAX as int) * (u64::MAX as int) <= u128::MAX);
    }
    let x: u128 = elapsed as u128 * rate as u128;
    let t: u128 = total_weight as u128;
    let w: u128 = weight as u128;
    let q: u128 = x / t;
    let m: u128 = x % t;
    let ghost xi = x as int;
    let ghost ti = t as int;
    let ghost wi = w as int;
    proof {
        lemma_fundamental_div_mod(xi, ti);
        lemma_mod_bound(xi, ti);
        lemma_mul_upper_bound(m as int, u64::MAX as int, wi, u64::MAX as int);
        lemma_mul_nonnegative(m as int, wi);
        lemma_mul_nonnegative(q as int, wi);
        lemma_fundamental_div_mod((m as int) * wi, ti);
        lemma_mod_bound((m as int) * wi, ti);
        let a = (m as int) * wi / ti;
        let b = (m as int) * wi % ti;
        assert(xi * wi == ((q as int) * wi + a) * ti + b) by {
            lemma_mul_is_distributive_add_other_way(wi, ti * (q as int), m as int);
            lemma_mul_is_associative(ti, q as int, wi);
            lemma_mul_is_commutative(ti, (q as int) * wi);
            lemma_mul_is_distributive_add_other_way(ti, (q as int) * wi, a);
            lemma_mul_is_commutative(xi, wi);
            lemma_mul_is_commutative(ti, a);
        }
        lemma_fundamental_div_mod_converse(xi * wi, ti, (q as int) * wi + a, b);
        assert(elapsed as int * rate as int * weight as int == xi * wi);
    }
    let part: u128 = m * w / t;
    match q.checked_mul(w) {
        None => None,
        Some(whole) => {
            if whole > u64::MAX as u128 || part > u64::MAX as u128 {
                None
            } else {
                let sum: u128 = whole + part;
                if sum <= u64::MAX as u128 {
                    Some(sum as u64)
                } else {
                    None
                }
            }
        },
    }
}

/// `rewards * UNIT / stake`, rounded toward zero; `None` when it does not fit
/// in a `u64`.
pub fn index_increment(rewards: u64, stake_a: u64, stake_b: u64) -> (r: Option<u64>)
    requires
        stake_a + stake_b > 0,
    ensures
        index_increment_of(rewards as int, stake_a + stake_b) <= u64::MAX ==> r == Some(
            index_increment_of(rewards as int, stake_a + stake_b) as u64,
        ),
        index_increment_of(rewards as int, stake_a + stake_b) > u64::MAX ==> r is None,
{
    proof {
        lemma_mul_upper_bound(rewards as int, u64::MAX as int, UNIT as int, u64::MAX as int);
        assert((u64::MAX as int) * (u64::MAX as int) <= u128::MAX);
    }
    let n: u128 = rewards as u128 * UNIT as u128;
    let d: u128 = stake_a as u128 + stake_b as u128;
    let inc: u128 = n / d;
    if inc <= u64::MAX as u128 {
        Some(inc as u64)
    } else {
        None
    }
}

/// Whether the exact share `elapsed * rate * weight / total_weight` is above
/// `threshold`, with no rounding.
pub fn share_exceeds(elapsed: u64, rate: u64, weight: u64, total_weight: u64, threshold: u64) -> (r: bool)
    ensures
        r == (elapsed as int * rate as int * weight as int > threshold as int * total_weight as int),
{
    proof {
        lemma_mul_upper_bound(elapsed as int, u64::MAX as int, rate as int, u64::MAX as int);
        lemma_mul_upper_bound(threshold as int, u64::MAX as int, total_weight as int, u64::MAX as int);
        assert((u64::MAX as int) * (u64::MAX as int) <= u128::MAX);
        lemma_mul_nonnegative(threshold as int, total_weight as int);
        lemma_mul_nonnegative(elapsed as int, rate as int);
    }
    let x: u128 = elapsed as u128 * rate as u128;
    let c: u128 = threshold as u128 * total_weight as u128;
    if weight == 0 {
        proof {
            lemma_mul_basics(x as int);
        }
        return false;
    }
    let w: u128 = weight as u128;
    let bound: u128 = c / w;
    proof {
        let (xi, ci, wi, bi) = (x as int, c as int, w as int, bound as int);
        lemma_fundamental_div_mod(ci, wi);
        lemma_mod_bound(ci, wi);
        lemma_mul_is_commutative(wi, bi);
        if xi > bi {
            lemma_mul_inequality(bi + 1, xi, wi);
            lemma_mul_is_distributive_add_other_way(wi, bi, 1);
        } else {
            lemma_mul_inequality(xi, bi, wi);
        }
    }
    x > bound
}

} // verus!

//! The records of the ledger: the global pool registry and each user's
//! deposits and vesting claims.

use vstd::prelude::*;

verus! {

broadcast use vstd::array::group_array_axioms;

/// A 32-byte account or token identity.
#[derive(Debug, Clone, Copy, PartialEq, Eq)]
pub struct Key {
    pub bytes: [u8; 32],
}

impl Key {
    /// Whether two identities are the same.
    pub fn same(&self, other: &Key) -> (r: bool)
        ensures
            r == (*self == *other),
    {
        let mut i: usize = 0;
        while i < 32
            invariant
                i <= 32,
                forall|j: int| 0 <= j < i ==> self.bytes[j] == other.bytes[j],
            decreases 32 - i,
        {
            if self.bytes[i] != other.bytes[i] {
                return false;
            }
            i = i + 1;
        }
        assert(self.bytes =~= other.bytes);
        true
    }
}

/// One staking pool of the registry.
#[derive(Debug, Clone, Copy, PartialEq, Eq)]
pub struct Pool {
    pub deposit_token: Key,
    pub is_reward_pool: bool,
    pub pool_weight: u64,
    /// Sum of the principals staked in the pool.
    pub staking_amount: u64,
    /// Sum of the lock boosts of those stakes.
    pub weighted_staking_amount: u64,
    /// Cumulative reward per unit of stake, scaled by `UNIT`.
    pub reward_index_mul: u64,
    pub distributed_rewards: u64,
    /// Rewards realised from this pool that have not vested yet.
    pub total_locked_rewards: u64,
    /// Unix time of the last distribution; 0 before the first one.
    pub last_distribute_time: i64,
}

/// The registry of pools and the parameters of the reward stream.
#[derive(Debug, Clone, PartialEq, Eq)]
pub struct GlobalAccount {
    pub reward_token: Key,
    pub rewards_per_second: u64,
    /// Seconds between two vesting tranches.
    pub locked_reward_withdraw_interval: u32,
    /// Boost of a vesting claim in the reward pool, scaled by `UNIT`.
    pub locked_reward_multiplier_mul: u64,
    /// Number of vesting tranches of a claim.
    pub locked_reward_withdraw_count: u8,
    pub total_pool_weight: u64,
    pub lock_unit_duration: u64,
    /// Boost per lock unit of a deposit, scaled by `UNIT`.
    pub lock_unit_multiplier_mul: u64,
    pub max_lock_units: u64,
    pub total_distributed_rewards: u64,
    pub pools: Vec<Pool>,
}

/// A live stake of one user.
#[derive(Debug, Clone, Copy, PartialEq, Eq)]
pub struct Deposit {
    pub id: u16,
    pub deposit_token: Key,
    pub amount: u64,
    /// Index of the pool when this deposit last accrued.
    pub reward_index_mul: u64,
    pub weighted_amount: u64,
    pub deposit_time: i64,
    pub lock_units: u8,
}

/// A realised reward that vests in tranches.
#[derive(Debug, Clone, Copy, PartialEq, Eq)]
pub struct Claim {
    pub id: u16,
    pub deposit_token: Key,
    pub deposit_id: u16,
    pub amount: u64,
    pub remaining_amount: u64,
    /// Index of the reward pool when this claim last accrued.
    pub reward_index_mul: u64,
    pub lock_time: i64,
    pub last_withdraw_time: i64,
    pub withdrawn_count: u8,
}

/// The deposits and claims of one user.
#[derive(Debug, Clone, PartialEq, Eq)]
pub struct UserAccount {
    pub user: Key,
    pub next_deposit_id: u16,
    pub next_claim_id: u16,
    pub deposits: Vec<Deposit>,
    pub claims: Vec<Claim>,
}

impl Deposit {
    /// A claim of `amount` realised from this deposit at `now`, accruing in
    /// the reward pool from index `reward_index_mul`.
    pub fn new_claim(&self, id: u16, amount: u64, reward_index_mul: u64, now: i64) -> (r: Claim)
        ensures
            r == (Claim {
                id,
                deposit_token: self.deposit_token,
                deposit_id: self.id,
                amount,
                remaining_amount: amount,
                reward_index_mul,
                lock_time: now,
                last_withdraw_time: now,
                withdrawn_count: 0,
            }),
    {
        Claim {
            id,
            deposit_token: self.deposit_token,
            deposit_id: self.id,
            amount,
            remaining_amount: amount,
            reward_index_mul,
            lock_time: now,
            last_withdraw_time: now,
            withdrawn_count: 0,
        }
    }
}

/// Sum of the weights of `pools`.
pub open spec fn total_weight(pools: Seq<Pool>) -> int
    decreases pools.len(),
{
    if pools.len() == 0 {
        0
    } else {
        total_weight(pools.drop_last()) + pools.last().pool_weight
    }
}

/// Whether some pool of `pools` takes deposits of `token`.
pub open spec fn has_pool(pools: Seq<Pool>, token: Key) -> bool {
    exists|i: int| 0 <= i < pools.len() && pools[i].deposit_token == token
}

/// The position of the pool of `token` in `pools`, where there is one.
pub open spec fn pool_index(pools: Seq<Pool>, token: Key) -> int {
    choose|i: int| 0 <= i < pools.len() && pools[i].deposit_token == token
}

/// Whether some deposit of `deposits` has identity `id`.
pub open spec fn has_deposit(deposits: Seq<Deposit>, id: u16) -> bool {
    exists|i: int| 0 <= i < deposits.len() && deposits[i].id == id
}

/// The position of the deposit `id` in `deposits`, where there is one.
pub open spec fn deposit_index(deposits: Seq<Deposit>, id: u16) -> int {
    choose|i: int| 0 <= i < deposits.len() && deposits[i].id == id
}

/// Whether some claim of `claims` has identity `id`.
pub open spec fn has_claim(claims: Seq<Claim>, id: u16) -> bool {
    exists|i: int| 0 <= i < claims.len() && claims[i].id == id
}

/// The position of the claim `id` in `claims`, where there is one.
pub open spec fn claim_index(claims: Seq<Claim>, id: u16) -> int {
    choose|i: int| 0 <= i < claims.len() && claims[i].id == id
}

/// No two pools of `pools` take the same token.
pub open spec fn unique_tokens(pools: Seq<Pool>) -> bool {
    forall|i: int, j: int|
        0 <= i < pools.len() && 0 <= j < pools.len() && i != j ==> #[trigger] pools[i].deposit_token
            != #[trigger] pools[j].deposit_token
}

/// Where tokens are unique, the pool of a token is the one that holds it.
pub proof fn lemma_pool_index(pools: Seq<Pool>, i: int)
    requires
        unique_tokens(pools),
        0 <= i < pools.len(),
    ensures
        has_pool(pools, pools[i].deposit_token),
        pool_index(pools, pools[i].deposit_token) == i,
{
    assert(has_pool(pools, pools[i].deposit_token));
}

/// Where identities are unique, the deposit of an identity is the one that holds it.
pub proof fn lemma_deposit_index(deposits: Seq<Deposit>, i: int)
    requires
        unique_deposit_ids(deposits),
        0 <= i < deposits.len(),
    ensures
        has_deposit(deposits, deposits[i].id),
        deposit_index(deposits, deposits[i].id) == i,
{
    assert(has_deposit(deposits, deposits[i].id));
}

/// Where identities are unique, the claim of an identity is the one that holds it.
pub proof fn lemma_claim_index(claims: Seq<Claim>, i: int)
    requires
        unique_claim_ids(claims),
        0 <= i < claims.len(),
    ensures
        has_claim(claims, claims[i].id),
        claim_index(claims, claims[i].id) == i,
{
    assert(has_claim(claims, claims[i].id));
}

/// No two deposits share an identity.
pub open spec fn unique_deposit_ids(deposits: Seq<Deposit>) -> bool {
    forall|i: int, j: int|
        0 <= i < deposits.len() && 0 <= j < deposits.len() && i != j ==> #[trigger] deposits[i].id
            != #[trigger] deposits[j].id
}

/// No two claims share an identity.
pub open spec fn unique_claim_ids(claims: Seq<Claim>) -> bool {
    forall|i: int, j: int|
        0 <= i < claims.len() && 0 <= j < claims.len() && i != j ==> #[trigger] claims[i].id
            != #[trigger] claims[j].id
}

impl GlobalAccount {
    /// Pool tokens are unique and the total weight is the sum of the weights.
    pub open spec fn wf(&self) -> bool {
        &&& unique_tokens(self.pools@)
        &&& self.total_pool_weight == total_weight(self.pools@)
    }

    /// The same parameters and counters as `other`; the pools may differ.
    pub open spec fn same_settings(&self, other: &GlobalAccount) -> bool {
        &&& self.reward_token == other.reward_token
        &&& self.rewards_per_second == other.rewards_per_second
        &&& self.locked_reward_withdraw_interval == other.locked_reward_withdraw_interval
        &&& self.locked_reward_multiplier_mul == other.locked_reward_multiplier_mul
        &&& self.locked_reward_withdraw_count == other.locked_reward_withdraw_count
        &&& self.total_pool_weight == other.total_pool_weight
        &&& self.lock_unit_duration == other.lock_unit_duration
        &&& self.lock_unit_multiplier_mul == other.lock_unit_multiplier_mul
        &&& self.max_lock_units == other.max_lock_units
        &&& self.total_distributed_rewards == other.total_distributed_rewards
    }

    /// The same ledger as `other`.
    pub open spec fn same_as(&self, other: &GlobalAccount) -> bool {
        self.same_settings(other) && self.pools@ == other.pools@
    }
}

impl UserAccount {
    /// Identities are unique and below the next ones handed out.
    pub open spec fn wf(&self) -> bool {
        &&& unique_deposit_ids(self.deposits@)
        &&& unique_claim_ids(self.claims@)
        &&& forall|i: int|
            0 <= i < self.deposits@.len() ==> #[trigger] self.deposits@[i].id
                < self.next_deposit_id
        &&& forall|i: int|
            0 <= i < self.claims@.len() ==> #[trigger] self.claims@[i].id < self.next_claim_id
    }

    /// Every claim has tranches left out of `count`, and has paid out whole
    /// tranches of `amount / count` so far.
    pub open spec fn vesting_wf(&self, count: u8) -> bool {
        forall|i: int|
            0 <= i < self.claims@.len() ==> {
                let c = #[trigger] self.claims@[i];
                &&& c.withdrawn_count < count
                &&& c.remaining_amount == c.amount - c.withdrawn_count * ((c.amount as int) / (count as int))
            }
    }

    /// The same ledger as `other`.
    pub open spec fn same_as(&self, other: &UserAccount) -> bool {
        &&& self.user == other.user
        &&& self.next_deposit_id == other.next_deposit_id
        &&& self.next_claim_id == other.next_claim_id
        &&& self.deposits@ == other.deposits@
        &&& self.claims@ == other.claims@
    }
}

proof fn lemma_total_weight_prefix(pools: Seq<Pool>, k: int)
    requires
        0 <= k <= pools.len(),
    ensures
        total_weight(pools.subrange(0, k)) <= total_weight(pools),
    decreases pools.len() - k,
{
    if k < pools.len() {
        lemma_total_weight_prefix(pools, k + 1);
        assert(pools.subrange(0, k + 1).drop_last() =~= pools.subrange(0, k));
    } else {
        assert(pools.subrange(0, k) =~= pools);
    }
}

impl GlobalAccount {
    /// Whether the registry is well formed.
    pub fn check_wf(&self) -> (r: bool)
        ensures
            r == self.wf(),
    {
        let pools = &self.pools;
        let mut sum: u64 = 0;
        let mut i: usize = 0;
        while i < pools.len()
            invariant
                self.pools@ == pools@,
                i <= pools@.len(),
                sum == total_weight(pools@.subrange(0, i as int)),
                sum <= self.total_pool_weight,
            decreases pools@.len() - i,
        {
            proof {
                assert(pools@.subrange(0, i + 1).drop_last() =~= pools@.subrange(0, i as int));
            }
            if pools[i].pool_weight > self.total_pool_weight - sum {
                proof {
                    lemma_total_weight_prefix(pools@, i + 1);
                }
                return false;
            }
            sum = sum + pools[i].pool_weight;
            i = i + 1;
        }
        proof {
            assert(pools@.subrange(0, pools@.len() as int) =~= pools@);
        }
        if sum != self.total_pool_weight {
            return false;
        }
        let mut a: usize = 0;
        while a < pools.len()
            invariant
                self.pools@ == pools@,
                a <= pools@.len(),
                forall|x: int, y: int|
                    0 <= x < a && 0 <= y < pools@.len() && x != y ==> pools@[x].deposit_token
                        != pools@[y].deposit_token,
            decreases pools@.len() - a,
        {
            let mut b: usize = 0;
            while b < pools.len()
                invariant
                    self.pools@ == pools@,
                    a < pools@.len(),
                    b <= pools@.len(),
                    forall|x: int, y: int|
                        0 <= x < a && 0 <= y < pools@.len() && x != y ==> pools@[x].deposit_token
                            != pools@[y].deposit_token,
                    forall|y: int|
                        0 <= y < b && y != a ==> pools@[a as int].deposit_token
                            != pools@[y].deposit_token,
                decreases pools@.len() - b,
            {
                if b != a && pools[a].deposit_token.same(&pools[b].deposit_token) {
                    proof {
                        assert(self.pools@[a as int].deposit_token == self.pools@[b as int].deposit_token);
                    }
                    return false;
                }
                b = b + 1;
            }
            a = a + 1;
        }
        true
    }
}

impl UserAccount {
    /// Whether the identities of the ledger are well formed.
    pub fn check_wf(&self) -> (r: bool)
        ensures
            r == self.wf(),
    {
        let deposits = &self.deposits;
        let claims = &self.claims;
        let mut a: usize = 0;
        while a < deposits.len()
            invariant
                self.deposits@ == deposits@,
                self.claims@ == claims@,
                a <= deposits@.len(),
                forall|x: int| 0 <= x < a ==> #[trigger] deposits@[x].id < self.next_deposit_id,
                forall|x: int, y: int|
                    0 <= x < a && 0 <= y < deposits@.len() && x != y ==> deposits@[x].id
                        != deposits@[y].id,
            decreases deposits@.len() - a,
        {
            if deposits[a].id >= self.next_deposit_id {
                proof {
                    assert(self.deposits@[a as int].id >= self.next_deposit_id);
                }
                return false;
            }
            let mut b: usize = 0;
            while b < deposits.len()
                invariant
                    self.deposits@ == deposits@,
                    a < deposits@.len(),
                    b <= deposits@.len(),
                    forall|x: int, y: int|
                        0 <= x < a && 0 <= y < deposits@.len() && x != y ==> deposits@[x].id
                            != deposits@[y].id,
                    forall|y: int| 0 <= y < b && y != a ==> deposits@[a as int].id != deposits@[y].id,
                decreases deposits@.len() - b,
            {
                if b != a && deposits[a].id == deposits[b].id {
                    proof {
                        assert(self.deposits@[a as int].id == self.deposits@[b as int].id);
                    }
                    return false;
                }
                b = b + 1;
            }
            a = a + 1;
        }
        let mut a: usize = 0;
        while a < claims.len()
            invariant
                a <= claims@.len(),
                self.deposits@ == deposits@,
                self.claims@ == claims@,
                forall|x: int| 0 <= x < deposits@.len() ==> #[trigger] deposits@[x].id < self.next_deposit_id,
                unique_deposit_ids(deposits@),
                forall|x: int| 0 <= x < a ==> #[trigger] claims@[x].id < self.next_claim_id,
                forall|x: int, y: int|
                    0 <= x < a && 0 <= y < claims@.len() && x != y ==> claims@[x].id != claims@[y].id,
            decreases claims@.len() - a,
        {
            if claims[a].id >= self.next_claim_id {
                proof {
                    assert(self.claims@[a as int].id >= self.next_claim_id);
                }
                return false;
            }
            let mut b: usize = 0;
            while b < claims.len()
                invariant
                    self.deposits@ == deposits@,
                    self.claims@ == claims@,
                    forall|x: int| 0 <= x < deposits@.len() ==> #[trigger] deposits@[x].id < self.next_deposit_id,
                    unique_deposit_ids(deposits@),
                    forall|x: int| 0 <= x < a ==> #[trigger] claims@[x].id < self.next_claim_id,
                    a < claims@.len(),
                    b <= claims@.len(),
                    forall|x: int, y: int|
                        0 <= x < a && 0 <= y < claims@.len() && x != y ==> claims@[x].id
                            != claims@[y].id,
                    forall|y: int| 0 <= y < b && y != a ==> claims@[a as int].id != claims@[y].id,
                decreases claims@.len() - b,
            {
                if b != a && claims[a].id == claims[b].id {
                    proof {
                        assert(self.claims@[a as int].id == self.claims@[b as int].id);
                    }
                    return false;
                }
                b = b + 1;
            }
            a = a + 1;
        }
        true
    }

    /// Whether every claim is within a vesting schedule of `count` tranches.
    pub fn check_vesting(&self, count: u8) -> (r: bool)
        requires
            count > 0,
        ensures
            r == self.vesting_wf(count),
    {
        let claims = &self.claims;
        let mut i: usize = 0;
        while i < claims.len()
            invariant
                count > 0,
                i <= claims@.len(),
                self.claims@ == claims@,
                forall|x: int|
                    0 <= x < i ==> {
                        let c = #[trigger] claims@[x];
                        &&& c.withdrawn_count < count
                        &&& c.remaining_amount == c.amount - c.withdrawn_count * ((c.amount as int)
                            / (count as int))
                    },
            decreases claims@.len() - i,
        {
            let c = claims[i];
            if c.withdrawn_count >= count {
                return false;
            }
            let per: u64 = c.amount / count as u64;
            proof {
                vstd::arithmetic::mul::lemma_mul_inequality(c.withdrawn_count as int, count as int, per as int);
                vstd::arithmetic::div_mod::lemma_fundamental_div_mod(c.amount as int, count as int);
                vstd::arithmetic::div_mod::lemma_mod_bound(c.amount as int, count as int);
                vstd::arithmetic::mul::lemma_mul_is_commutative(count as int, per as int);
                vstd::arithmetic::mul::lemma_mul_is_commutative(c.withdrawn_count as int, per as int);
            }
            let paid: u64 = per * c.withdrawn_count as u64;
            if c.remaining_amount != c.amount - paid {
                return false;
            }
            i = i + 1;
        }
        true
    }
}

/// Position of the pool of `token`, if the registry has one.
pub fn find_pool(pools: &Vec<Pool>, token: &Key) -> (r: Option<usize>)
    ensures
        r is None <==> !has_pool(pools@, *token),
        r matches Some(i) ==> i < pools@.len() && pools@[i as int].deposit_token == *token,
{
    let mut i: usize = 0;
    while i < pools.len()
        invariant
            i <= pools@.len(),
            forall|j: int| 0 <= j < i ==> pools@[j].deposit_token != *token,
        decreases pools@.len() - i,
    {
        if pools[i].deposit_token.same(token) {
            return Some(i);
        }
        i = i + 1;
    }
    None
}

/// Position of the deposit `id`, if there is one.
pub fn find_deposit(deposits: &Vec<Deposit>, id: u16) -> (r: Option<usize>)
    ensures
        r is None <==> !has_deposit(deposits@, id),
        r matches Some(i) ==> i < deposits@.len() && deposits@[i as int].id == id,
{
    let mut i: usize = 0;
    while i < deposits.len()
        invariant
            i <= deposits@.len(),
            forall|j: int| 0 <= j < i ==> deposits@[j].id != id,
        decreases deposits@.len() - i,
    {
        if deposits[i].id == id {
            return Some(i);
        }
        i = i + 1;
    }
    None
}

/// Position of the claim `id`, if there is one.
pub fn find_claim(claims: &Vec<Claim>, id: u16) -> (r: Option<usize>)
    ensures
        r is None <==> !has_claim(claims@, id),
        r matches Some(i) ==> i < claims@.len() && claims@[i as int].id == id,
{
    let mut i: usize = 0;
    while i < claims.len()
        invariant
            i <= claims@.len(),
            forall|j: int| 0 <= j < i ==> claims@[j].id != id,
        decreases claims@.len() - i,
    {
        if claims[i].id == id {
            return Some(i);
        }
        i = i + 1;
    }
    None
}

} // verus!

use pools::accounts::{Claim, GlobalAccount, Key, UserAccount};
use pools::claim::{calculate_rewards, claim};
use pools::distribute::{calculate_distribute, distribute};
use pools::errors::ErrorCode;
use pools::fixed_point::{
    accrue, calculate_weighted_amount, calculate_weighted_claim_amount, index_increment,
    pool_rewards, share_exceeds, UNIT,
};
use pools::registry::{initialize, initialize_user_account, register_pool};
use pools::staking::{stake, unstake};
use pools::withdraw::{calculate_expected_tranches, withdraw};

fn key(n: u8) -> Key {
    Key { bytes: [n; 32] }
}

/// Reward token 1 with one reward pool of weight 100, 1000 rewards a second,
/// five tranches ten seconds apart.
fn ledger(lock_multiplier: u64, claim_multiplier: u64) -> (GlobalAccount, UserAccount) {
    let mut g = initialize(key(1), 86_400, lock_multiplier, 5, 1000, 10, claim_multiplier, 5);
    register_pool(&mut g, key(1), 100).unwrap();
    (g, initialize_user_account(key(42)))
}

fn vesting_claim(amount: u64, lock_time: i64, token: Key) -> Claim {
    Claim {
        id: 0,
        deposit_token: token,
        deposit_id: 0,
        amount,
        remaining_amount: amount,
        reward_index_mul: 0,
        lock_time,
        last_withdraw_time: lock_time,
        withdrawn_count: 0,
    }
}

#[test]
fn unit_is_one_billion() {
    assert_eq!(UNIT, 1_000_000_000);
}

#[test]
fn weighted_amount_formula() {
    assert_eq!(calculate_weighted_amount(1_000_000, 2, 500_000_000), Some(1_000_000));
    assert_eq!(calculate_weighted_amount(1_000_000, 0, 500_000_000), Some(0));
    assert_eq!(calculate_weighted_amount(7, 3, 100_000_000), Some(2));
    assert_eq!(calculate_weighted_amount(u64::MAX, 255, u64::MAX), None);
}

#[test]
fn weighted_claim_amount_formula() {
    assert_eq!(calculate_weighted_claim_amount(1000, 1_500_000_000), Some(1500));
    assert_eq!(calculate_weighted_claim_amount(999, 1_000_001), Some(0));
    assert_eq!(calculate_weighted_claim_amount(u64::MAX, u64::MAX), None);
}

#[test]
fn pool_rewards_formula() {
    assert_eq!(pool_rewards(100, 1000, 100, 100), Some(100_000));
    assert_eq!(pool_rewards(10, 1000, 100, 300), Some(3333));
    assert_eq!(pool_rewards(u64::MAX, u64::MAX, 3, 7), None);
    assert_eq!(pool_rewards(u64::MAX, u64::MAX, 1, u64::MAX), Some(u64::MAX));
}

#[test]
fn index_increment_formula() {
    assert_eq!(index_increment(101_000, 1_000_000, 0), Some(101_000_000));
    assert_eq!(index_increment(10, 2, 1), Some(3_333_333_333));
    assert_eq!(index_increment(u64::MAX, 1, 0), None);
}

#[test]
fn accrue_formula() {
    assert_eq!(accrue(1_000_000, 0, 101_000_000, 0), Some(101_000));
    assert_eq!(accrue(200, 100, 3_000_000_000, 1_000_000_000), Some(600));
    assert_eq!(accrue(200, 100, 1_000_000_000, 3_000_000_000), Some(0));
    assert_eq!(accrue(u64::MAX, u64::MAX, u64::MAX, 0), None);
}

#[test]
fn expected_tranches_are_capped() {
    assert_eq!(calculate_expected_tranches(123, 100, 10, 5), 2);
    assert_eq!(calculate_expected_tranches(1000, 100, 10, 5), 5);
    assert_eq!(calculate_expected_tranches(99, 100, 10, 5), 0);
}

#[test]
fn stake_records_deposit_and_pool_totals() {
    let (mut g, mut u) = ledger(500_000_000, 0);
    assert_eq!(stake(&mut g, &mut u, key(1), 1_000_000, 2, 77), Ok(()));
    assert_eq!(u.next_deposit_id, 1);
    assert_eq!(u.deposits.len(), 1);
    let d = u.deposits[0];
    assert_eq!(d.id, 0);
    assert_eq!(d.amount, 1_000_000);
    assert_eq!(d.weighted_amount, 1_000_000);
    assert_eq!(d.deposit_time, 77);
    assert_eq!(d.lock_units, 2);
    assert_eq!(g.pools[0].staking_amount, 1_000_000);
    assert_eq!(g.pools[0].weighted_staking_amount, 1_000_000);
}

#[test]
fn stake_snapshots_current_index() {
    let (mut g, mut u) = ledger(0, 0);
    g.pools[0].reward_index_mul = 5_000;
    stake(&mut g, &mut u, key(1), 10, 0, 1).unwrap();
    assert_eq!(u.deposits[0].reward_index_mul, 5_000);
}

#[test]
fn stake_rejections() {
    let (mut g, mut u) = ledger(0, 0);
    assert_eq!(stake(&mut g, &mut u, key(1), 0, 0, 1), Err(ErrorCode::InvalidStakingAmount));
    assert_eq!(stake(&mut g, &mut u, key(1), 10, 6, 1), Err(ErrorCode::InvalidLockUnit));
    assert_eq!(stake(&mut g, &mut u, key(9), 10, 0, 1), Err(ErrorCode::PoolNotFound));
    g.pools[0].staking_amount = u64::MAX;
    assert_eq!(stake(&mut g, &mut u, key(1), 10, 0, 1), Err(ErrorCode::MathOverflow));
    assert!(u.deposits.is_empty());
    assert_eq!(u.next_deposit_id, 0);
}

#[test]
fn register_pool_rejections() {
    let (mut g, _) = ledger(0, 0);
    assert_eq!(register_pool(&mut g, key(1), 5), Err(ErrorCode::PoolAlreadyExists));
    assert_eq!(register_pool(&mut g, key(2), u64::MAX), Err(ErrorCode::MathOverflow));
    assert_eq!(register_pool(&mut g, key(2), 50), Ok(()));
    assert_eq!(g.total_pool_weight, 150);
    assert_eq!(g.pools.len(), 2);
    assert_eq!(g.pools[1].last_distribute_time, 0);
    assert!(g.pools[0].is_reward_pool);
    assert!(!g.pools[1].is_reward_pool);
}

#[test]
fn unstake_returns_principal_and_forfeits_rewards() {
    let (mut g, mut u) = ledger(500_000_000, 0);
    stake(&mut g, &mut u, key(1), 1_000_000, 2, 1).unwrap();
    stake(&mut g, &mut u, key(1), 300, 0, 1).unwrap();
    g.pools[0].reward_index_mul = 9_000_000_000;
    let d = unstake(&mut g, &mut u, 0).unwrap();
    assert_eq!(d.amount, 1_000_000);
    assert_eq!(u.deposits.len(), 1);
    assert_eq!(u.deposits[0].id, 1);
    assert_eq!(g.pools[0].staking_amount, 300);
    assert_eq!(g.pools[0].weighted_staking_amount, 0);
    assert!(u.claims.is_empty());
    assert_eq!(unstake(&mut g, &mut u, 0), Err(ErrorCode::InvalidDepositId));
}

#[test]
fn unstake_rejections() {
    let (mut g, mut u) = ledger(0, 0);
    stake(&mut g, &mut u, key(1), 500, 0, 1).unwrap();
    g.pools[0].staking_amount = 100;
    assert_eq!(unstake(&mut g, &mut u, 0), Err(ErrorCode::InsufficientFundsStaked));
    u.deposits[0].deposit_token = key(8);
    assert_eq!(unstake(&mut g, &mut u, 0), Err(ErrorCode::PoolNotFound));
    assert_eq!(u.deposits.len(), 1);
}

#[test]
fn conservation_of_staked_principal() {
    let (mut g, mut u) = ledger(0, 0);
    register_pool(&mut g, key(2), 50).unwrap();
    stake(&mut g, &mut u, key(1), 100, 0, 1).unwrap();
    stake(&mut g, &mut u, key(2), 40, 0, 1).unwrap();
    stake(&mut g, &mut u, key(1), 25, 0, 2).unwrap();
    unstake(&mut g, &mut u, 0).unwrap();
    stake(&mut g, &mut u, key(2), 7, 0, 3).unwrap();
    for p in g.pools.iter() {
        let live: u64 = u
            .deposits
            .iter()
            .filter(|d| d.deposit_token == p.deposit_token)
            .map(|d| d.amount)
            .sum();
        assert_eq!(p.staking_amount, live);
    }
    assert_eq!(g.pools[0].staking_amount, 25);
    assert_eq!(g.pools[1].staking_amount, 47);
}

#[test]
fn first_distribution_only_starts_the_clock() {
    let (mut g, mut u) = ledger(0, 0);
    distribute(&mut g, 500).unwrap();
    assert_eq!(g.pools[0].last_distribute_time, 0);
    stake(&mut g, &mut u, key(1), 1_000_000, 0, 1000).unwrap();
    distribute(&mut g, 1000).unwrap();
    assert_eq!(g.pools[0].last_distribute_time, 1000);
    assert_eq!(g.pools[0].reward_index_mul, 0);
}

#[test]
fn dust_gate_boundary_is_strict() {
    let (mut g, mut u) = ledger(0, 0);
    stake(&mut g, &mut u, key(1), 1_000_000, 0, 1000).unwrap();
    distribute(&mut g, 1000).unwrap();
    // 10 s * 1000 * 100 / 100 = 10000: not above the threshold.
    distribute(&mut g, 1010).unwrap();
    assert_eq!(g.pools[0].reward_index_mul, 0);
    assert_eq!(g.pools[0].distributed_rewards, 0);
    assert_eq!(g.pools[0].last_distribute_time, 1010);
    assert_eq!(g.total_distributed_rewards, 0);
}

#[test]
fn share_just_above_threshold_moves_index() {
    // Weight 1 of 3, rate 1, 30001 s: the exact share is 10000.33.
    let mut g = initialize(key(1), 0, 0, 5, 1, 10, 0, 5);
    register_pool(&mut g, key(1), 1).unwrap();
    register_pool(&mut g, key(2), 2).unwrap();
    let mut u = initialize_user_account(key(42));
    stake(&mut g, &mut u, key(1), 1_000_000, 0, 1000).unwrap();
    distribute(&mut g, 1000).unwrap();
    distribute(&mut g, 31_001).unwrap();
    assert_eq!(g.pools[0].distributed_rewards, 10_000);
    assert_eq!(g.pools[0].reward_index_mul, 10_000_000);
    assert_eq!(g.total_distributed_rewards, 10_000);
    let mut p = g.pools[0];
    p.last_distribute_time = 1000;
    assert_eq!(calculate_distribute(&p, 31_000, 1, 3), Some((0, 0)));
    assert_eq!(calculate_distribute(&p, 31_001, 1, 3), Some((10_000, 10_000_000)));
}

#[test]
fn share_exceeds_is_exact() {
    assert!(share_exceeds(30_001, 1, 1, 3, 10_000));
    assert!(!share_exceeds(30_000, 1, 1, 3, 10_000));
    assert!(!share_exceeds(100, 1000, 100, 1000, 10_000));
    assert!(share_exceeds(101, 1000, 100, 1000, 10_000));
    assert!(share_exceeds(u64::MAX, u64::MAX, u64::MAX, 1, u64::MAX));
    assert!(!share_exceeds(5, 5, 0, 1, 0));
}

#[test]
fn distribution_after_hundred_seconds() {
    let (mut g, mut u) = ledger(0, 0);
    stake(&mut g, &mut u, key(1), 1_000_000, 0, 1000).unwrap();
    distribute(&mut g, 1000).unwrap();
    distribute(&mut g, 1100).unwrap();
    assert_eq!(g.pools[0].distributed_rewards, 100_000);
    assert_eq!(g.pools[0].reward_index_mul, 100_000_000);
}

#[test]
fn distribution_and_claim_after_101_seconds() {
    let (mut g, mut u) = ledger(0, 0);
    stake(&mut g, &mut u, key(1), 1_000_000, 0, 1000).unwrap();
    distribute(&mut g, 1000).unwrap();
    distribute(&mut g, 1101).unwrap();
    assert_eq!(g.pools[0].distributed_rewards, 101_000);
    assert_eq!(g.pools[0].reward_index_mul, 101_000_000);
    assert_eq!(g.total_distributed_rewards, 101_000);
    assert_eq!(calculate_rewards(&u.deposits[0], g.pools[0].reward_index_mul), Some(101_000));
    assert_eq!(claim(&mut g, &mut u, key(1), 0, 1101), Ok(()));
    let c = u.claims[0];
    assert_eq!(c.amount, 101_000);
    assert_eq!(c.remaining_amount, 101_000);
    assert_eq!(c.reward_index_mul, 101_000_000);
    assert_eq!(c.lock_time, 1101);
    assert_eq!(c.withdrawn_count, 0);
    assert_eq!(u.next_claim_id, 1);
    assert_eq!(u.deposits[0].reward_index_mul, 101_000_000);
    assert_eq!(g.pools[0].staking_amount, 1_101_000);
    assert_eq!(g.pools[0].total_locked_rewards, 101_000);
}

#[test]
fn second_claim_finds_nothing() {
    let (mut g, mut u) = ledger(0, 0);
    stake(&mut g, &mut u, key(1), 1_000_000, 0, 1000).unwrap();
    distribute(&mut g, 1000).unwrap();
    distribute(&mut g, 1101).unwrap();
    claim(&mut g, &mut u, key(1), 0, 1101).unwrap();
    assert_eq!(claim(&mut g, &mut u, key(1), 0, 1102), Err(ErrorCode::ZeroClaimAmount));
    assert_eq!(u.claims.len(), 1);
}

#[test]
fn claim_from_other_pool_compounds_into_reward_pool() {
    let (mut g, mut u) = ledger(0, 2_000_000_000);
    register_pool(&mut g, key(2), 100).unwrap();
    stake(&mut g, &mut u, key(2), 1_000_000, 0, 1).unwrap();
    g.pools[1].reward_index_mul = 3_000_000_000;
    g.pools[0].reward_index_mul = 7;
    assert_eq!(claim(&mut g, &mut u, key(2), 0, 50), Ok(()));
    assert_eq!(g.pools[1].total_locked_rewards, 3_000_000);
    assert_eq!(g.pools[1].staking_amount, 1_000_000);
    assert_eq!(g.pools[0].staking_amount, 3_000_000);
    assert_eq!(g.pools[0].weighted_staking_amount, 6_000_000);
    assert_eq!(u.claims[0].reward_index_mul, 7);
    assert_eq!(u.claims[0].deposit_token, key(2));
    assert_eq!(u.deposits[0].reward_index_mul, 3_000_000_000);
}

#[test]
fn claim_rejections() {
    let (mut g, mut u) = ledger(0, 0);
    stake(&mut g, &mut u, key(1), 10, 0, 1).unwrap();
    assert_eq!(claim(&mut g, &mut u, key(2), 0, 5), Err(ErrorCode::DepositPoolNotFound));
    register_pool(&mut g, key(2), 10).unwrap();
    assert_eq!(claim(&mut g, &mut u, key(2), 0, 5), Err(ErrorCode::InvalidDepositToken));
    assert_eq!(claim(&mut g, &mut u, key(1), 3, 5), Err(ErrorCode::InvalidDepositId));
    assert_eq!(claim(&mut g, &mut u, key(1), 0, 5), Err(ErrorCode::ZeroClaimAmount));

    let mut g2 = initialize(key(1), 0, 0, 5, 1000, 10, 0, 5);
    register_pool(&mut g2, key(2), 10).unwrap();
    let mut u2 = initialize_user_account(key(42));
    stake(&mut g2, &mut u2, key(2), 10, 0, 1).unwrap();
    assert_eq!(claim(&mut g2, &mut u2, key(2), 0, 5), Err(ErrorCode::RewardPoolNotFound));
    assert_eq!(claim(&mut g2, &mut u2, key(1), 0, 5), Err(ErrorCode::RewardPoolNotFound));
}

fn vesting_ledger(pool_index: u64) -> (GlobalAccount, UserAccount) {
    let (mut g, mut u) = ledger(0, 0);
    g.pools[0].staking_amount = 1000;
    g.pools[0].total_locked_rewards = 1000;
    g.pools[0].reward_index_mul = pool_index;
    u.claims.push(vesting_claim(1000, 100, key(1)));
    u.next_claim_id = 1;
    (g, u)
}

#[test]
fn withdraw_two_matured_tranches() {
    let (mut g, mut u) = vesting_ledger(0);
    assert_eq!(withdraw(&mut g, &mut u, 0, 123), Ok(400));
    assert_eq!(u.claims[0].withdrawn_count, 2);
    assert_eq!(u.claims[0].remaining_amount, 600);
    assert_eq!(u.claims[0].last_withdraw_time, 123);
    assert_eq!(g.pools[0].staking_amount, 600);
    assert_eq!(g.pools[0].total_locked_rewards, 600);
    assert_eq!(withdraw(&mut g, &mut u, 0, 129), Err(ErrorCode::InvalidWithdrawTime));
}

#[test]
fn withdraw_last_tranches_removes_claim() {
    let (mut g, mut u) = vesting_ledger(0);
    withdraw(&mut g, &mut u, 0, 123).unwrap();
    assert_eq!(withdraw(&mut g, &mut u, 0, 400), Ok(600));
    assert!(u.claims.is_empty());
    assert_eq!(g.pools[0].staking_amount, 0);
    assert_eq!(g.pools[0].total_locked_rewards, 0);
    assert_eq!(withdraw(&mut g, &mut u, 0, 500), Err(ErrorCode::InvalidClaimId));
}

#[test]
fn withdraw_pays_accrued_bonus() {
    let (mut g, mut u) = vesting_ledger(2_000_000_000);
    // Two tranches of 200, each earning 200 * 2 = 400.
    assert_eq!(withdraw(&mut g, &mut u, 0, 125), Ok(1200));
    assert_eq!(u.claims[0].reward_index_mul, 2_000_000_000);
    assert_eq!(g.pools[0].staking_amount, 600);
}

#[test]
fn withdraw_before_first_tranche() {
    let (mut g, mut u) = vesting_ledger(0);
    assert_eq!(withdraw(&mut g, &mut u, 0, 109), Err(ErrorCode::InvalidWithdrawTime));
    assert_eq!(withdraw(&mut g, &mut u, 0, 50), Err(ErrorCode::InvalidWithdrawTime));
    assert_eq!(u.claims[0].withdrawn_count, 0);
}

#[test]
fn withdraw_rejections() {
    let (mut g, mut u) = vesting_ledger(0);
    assert_eq!(withdraw(&mut g, &mut u, 9, 200), Err(ErrorCode::InvalidClaimId));
    g.pools[0].staking_amount = 100;
    assert_eq!(withdraw(&mut g, &mut u, 0, 200), Err(ErrorCode::InsufficientFundsStaked));
    g.pools[0].staking_amount = 1000;
    u.claims[0].deposit_token = key(3);
    assert_eq!(withdraw(&mut g, &mut u, 0, 200), Err(ErrorCode::DepositPoolNotFound));
    let mut g2 = initialize(key(1), 0, 0, 5, 1000, 10, 0, 5);
    assert_eq!(withdraw(&mut g2, &mut u, 0, 200), Err(ErrorCode::RewardPoolNotFound));
}

#[test]
fn withdraw_reduces_origin_pool_liability() {
    let (mut g, mut u) = vesting_ledger(0);
    register_pool(&mut g, key(2), 10).unwrap();
    g.pools[1].total_locked_rewards = 1000;
    g.pools[0].total_locked_rewards = 0;
    u.claims[0].deposit_token = key(2);
    assert_eq!(withdraw(&mut g, &mut u, 0, 111), Ok(200));
    assert_eq!(g.pools[1].total_locked_rewards, 800);
    assert_eq!(g.pools[0].total_locked_rewards, 0);
    assert_eq!(g.pools[0].staking_amount, 800);
}

#[test]
fn index_never_decreases_over_distributions() {
    let (mut g, mut u) = ledger(0, 0);
    register_pool(&mut g, key(2), 300).unwrap();
    stake(&mut g, &mut u, key(1), 1_000, 0, 1).unwrap();
    stake(&mut g, &mut u, key(2), 5_000_000, 3, 1).unwrap();
    let mut last = vec![0u64; 2];
    for t in [10i64, 11, 50, 50, 40, 400, 10_000] {
        distribute(&mut g, t).unwrap();
        for (i, p) in g.pools.iter().enumerate() {
            assert!(p.reward_index_mul >= last[i]);
            last[i] = p.reward_index_mul;
        }
    }
    assert!(last[0] > 0);
}

#[test]
fn distribute_without_weight_does_nothing() {
    let mut g = initialize(key(1), 0, 0, 5, 1000, 10, 0, 5);
    let before = g.clone();
    assert_eq!(distribute(&mut g, 99), Ok(()));
    assert_eq!(g, before);
}

#[test]
fn distribute_overflow_changes_nothing() {
    let (mut g, mut u) = ledger(0, 0);
    g.rewards_per_second = u64::MAX;
    stake(&mut g, &mut u, key(1), 1, 0, 1).unwrap();
    distribute(&mut g, 1).unwrap();
    let before = g.clone();
    assert_eq!(distribute(&mut g, 1_000_000), Err(ErrorCode::MathOverflow));
    assert_eq!(g, before);
}

#[test]
fn calculate_distribute_values() {
    let (mut g, mut u) = ledger(0, 0);
    stake(&mut g, &mut u, key(1), 1_000_000, 0, 1).unwrap();
    let mut p = g.pools[0];
    assert_eq!(calculate_distribute(&p, 100, 1000, 100), Some((0, 0)));
    p.last_distribute_time = 10;
    assert_eq!(calculate_distribute(&p, 20, 1000, 100), Some((0, 0)));
    assert_eq!(calculate_distribute(&p, 111, 1000, 100), Some((101_000, 101_000_000)));
    assert_eq!(calculate_distribute(&p, 5, 1000, 100), Some((0, 0)));
}

#[test]
fn key_comparison() {
    assert!(key(3).same(&key(3)));
    let mut k = key(3);
    k.bytes[31] = 4;
    assert!(!key(3).same(&k));
}

#[test]
fn error_messages() {
    assert_eq!(ErrorCode::ZeroClaimAmount.message(), "ERROR_ZERO_CLAIM_AMOUNT");
    assert_eq!(ErrorCode::InvalidWithdrawTime.message(), "ERROR_INVALID_WITHDRAW_TIME");
}

#[test]
fn new_claim_copies_provenance() {
    let (mut g, mut u) = ledger(0, 0);
    stake(&mut g, &mut u, key(1), 10, 0, 1).unwrap();
    let c = u.deposits[0].new_claim(4, 99, 12, 300);
    assert_eq!(c, Claim {
        id: 4,
        deposit_token: key(1),
        deposit_id: 0,
        amount: 99,
        remaining_amount: 99,
        reward_index_mul: 12,
        lock_time: 300,
        last_withdraw_time: 300,
        withdrawn_count: 0,
    });
}

#[test]
fn well_formedness_checks() {
    let (mut g, mut u) = ledger(0, 0);
    assert!(g.check_wf());
    assert!(u.check_wf());
    stake(&mut g, &mut u, key(1), 10, 0, 1).unwrap();
    stake(&mut g, &mut u, key(1), 10, 0, 1).unwrap();
    assert!(u.check_wf());
    u.deposits[1].id = 0;
    assert!(!u.check_wf());
    g.total_pool_weight = 99;
    assert!(!g.check_wf());
    g.total_pool_weight = 100;
    g.pools.push(g.pools[0]);
    g.pools[1].pool_weight = 0;
    assert!(!g.check_wf());
}

#[test]
fn vesting_check() {
    let (_, mut u) = vesting_ledger(0);
    assert!(u.check_vesting(5));
    u.claims[0].withdrawn_count = 2;
    assert!(!u.check_vesting(5));
    u.claims[0].remaining_amount = 600;
    assert!(u.check_vesting(5));
    u.claims[0].withdrawn_count = 5;
    assert!(!u.check_vesting(5));
}

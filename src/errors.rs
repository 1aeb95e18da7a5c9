//! Why an operation of the ledger was rejected.

use vstd::prelude::*;

verus! {

/// Reasons an operation is rejected; a rejected operation changes nothing.
#[derive(Debug, Clone, Copy, PartialEq, Eq, Structural)]
pub enum ErrorCode {
    InvalidDepositId,
    DepositPoolNotFound,
    RewardPoolNotFound,
    InvalidStakingAmount,
    PoolNotFound,
    InvalidLockUnit,
    InvalidDepositToken,
    PoolAlreadyExists,
    ZeroClaimAmount,
    InvalidClaimId,
    InvalidWithdrawTime,
    /// A pool total would go below zero.
    InsufficientFundsStaked,
    /// A pool vault is not at the address derived for its token.
    InvalidStakeVaultPDA,
    /// The reward vault is not at the address derived for the reward token.
    InvalidRewardVaultPDA,
    /// A counter or amount would leave the range of its integer type.
    MathOverflow,
}

impl ErrorCode {
    /// The message that names this error.
    pub fn message(&self) -> (r: &'static str) {
        match self {
            ErrorCode::InvalidDepositId => "ERROR_INVALID_DEPOSIT_ID",
            ErrorCode::DepositPoolNotFound => "ERROR_DEPOSIT_POOL_NOT_FOUND",
            ErrorCode::RewardPoolNotFound => "ERROR_REWARD_POOL_NOT_FOUND",
            ErrorCode::InvalidStakingAmount => "ERROR_INVALID_STAKING_AMOUNT",
            ErrorCode::PoolNotFound => "ERROR_POOL_NOT_FOUND",
            ErrorCode::InvalidLockUnit => "ERROR_INVALID_LOCK_UNIT",
            ErrorCode::InvalidDepositToken => "ERROR_INVALID_DEPOSIT_TOKEN",
            ErrorCode::PoolAlreadyExists => "ERROR_POOL_ALREADY_EXISTS",
            ErrorCode::ZeroClaimAmount => "ERROR_ZERO_CLAIM_AMOUNT",
            ErrorCode::InvalidClaimId => "ERROR_INVALID_CLAIM_ID",
            ErrorCode::InvalidWithdrawTime => "ERROR_INVALID_WITHDRAW_TIME",
            ErrorCode::InsufficientFundsStaked => "ERROR_INSUFFICIENT_FUND_STAKED",
            ErrorCode::InvalidStakeVaultPDA => "ERROR_INVALID_STAKE_VAULT_PDA",
            ErrorCode::InvalidRewardVaultPDA => "ERROR_INVALID_REWARD_VAULT_PDA",
            ErrorCode::MathOverflow => "ERROR_MATH_OVERFLOW",
        }
    }
}

} // verus!

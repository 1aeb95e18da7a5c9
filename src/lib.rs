//! Accounting engine of a multi-pool staking ledger: weighted pools share a
//! reward stream through a fixed-point reward index, stakes are boosted by a
//! lock multiplier, and realised rewards vest in equal tranches. A separate
//! module keeps the orders of a token bridge authorised by signed messages.

pub mod accounts;
pub mod bridge;
pub mod bytes;
pub mod claim;
pub mod distribute;
pub mod errors;
pub mod fixed_point;
pub mod laws;
pub mod registry;
pub mod staking;
pub mod vault;
pub mod withdraw;

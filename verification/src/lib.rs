//! Verified accounting engines for a loyalty platform: a constant-product
//! liquidity-pool exchange together with membership tiers, token vesting,
//! payment escrow, and order-lifecycle tracking.

pub mod assoc;
pub mod math;
pub mod pool;
pub mod store;
pub mod tiers;
pub mod vesting;
pub mod escrow;
pub mod orders;

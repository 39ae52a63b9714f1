//! Pooled-collateral accounting for margin-traded synthetic assets.
pub mod constants;
pub mod error;
pub mod fixed;
pub mod pools;
pub mod quote;
pub mod risk;
pub mod synthetic;

//! The errors of the pool registry and the trading engine.
use vstd::prelude::*;

verus! {

/// Why an operation was refused. A refused operation changes nothing.
#[derive(Clone, Copy, Debug, PartialEq, Eq, Structural)]
pub enum Error {
    /// No pool has that id, or it was removed.
    PoolNotFound,
    /// The caller does not own the pool.
    NoPermission,
    /// The pool still holds a balance or backs open synthetic exposure.
    CannotRemovePool,
    /// The pool is disabled, or trading of the asset is not enabled in it.
    TradeDisabled,
    /// No oracle price, or no spread, for the asset.
    NoPriceConfigured,
    /// The trader's free balance does not cover the amount.
    InsufficientBalance,
    /// The trader, or the pool's position, holds less of the asset than asked.
    InsufficientSyntheticBalance,
    /// The amount exceeds the pool's balance.
    CannotWithdrawAmount,
    /// The pool's balance would be left non-zero but below the existential
    /// deposit.
    CannotWithdrawExistentialDeposit,
    /// The position is collateralised above the liquidation threshold.
    StillInSafePosition,
    /// A result does not fit the amount type.
    NumericOverflow,
    /// The oracle price is zero.
    InvalidPrice,
    /// The redemption exceeds all the collateral locked for the position.
    UnderCollateralizedPosition,
    /// A ratio above one.
    InvalidRatio,
}

} // verus!

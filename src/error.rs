//! Why a call of the market is refused.

use vstd::prelude::*;

verus! {

/// Every refusal leaves the market as it was before the call.
#[derive(Debug, Clone, Copy, PartialEq, Eq)]
pub enum ContractError {
    /// The caller is not the owner, or not the registered gate.
    Unauthorized,
    /// No gate has been registered yet.
    GateNotRegistered,
    /// The principal holds no position.
    UserNotFound,
    /// The position holds no collateral of that denomination.
    CollateralNotFound,
    /// A withdrawal asks for more than the recorded collateral.
    InsufficientCollateral,
    /// A repayment is larger than the recorded loan.
    RepayExceedsLoan,
    /// An amount would leave the range of `u128`.
    Overflow,
    /// A call that needs exactly one coin came with none.
    NoFunds,
    /// More than one coin came with a call that takes at most one.
    TooManyCoins,
    /// The position holds more than one chain-native collateral.
    NotBridgable,
    /// A native collateral is bridged without a native relay description.
    NativeInfoMissing,
    /// No remote contract is registered for the chain.
    ChainNotRegistered,
    /// The routes given do not match the position's collaterals one for one.
    RoutesMismatch,
    /// Two collaterals would arrive under one key on the remote chain.
    RouteCollision,
}

} // verus!

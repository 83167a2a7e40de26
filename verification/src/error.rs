use vstd::prelude::*;

verus! {

/// Error kinds surfaced to the caller.  Every error aborts the operation:
/// a function that returns an error leaves the ledger state unchanged.
#[derive(Clone, Copy, Debug, PartialEq, Eq, Structural)]
pub enum ContractError {
    /// Caller is not a registered client for a payment operation, or not
    /// permitted by the authority oracle for an admin operation.
    NotAuthorized,
    /// Address validation failed (raised by the caller's address layer).
    InvalidAddress,
    /// Funds attached to the message do not cover the declared amount
    /// (raised by the caller's funding layer).
    InsufficientFunds,
    /// A payment exceeds the client's `pct_liquidity` share of the
    /// spendable liquidity.
    InsufficientAllowance,
    /// Registering a client would push the allocated liquidity fractions
    /// above 100 % (1000 thousandths).
    InsufficientLiquidity,
    /// Zero amount on a cash-flow or staking operation.
    MissingAmount,
    /// Internal consistency failure: a snapshot expected to exist is gone.
    SnapshotNotFound,
    /// A requested record does not exist.
    NotFound,
    /// Arithmetic overflow, or underflow outside the dust paths.
    Overflow,
}

} // verus!

//! The ways an operation on a pool can fail.

use vstd::prelude::*;

verus! {

/// Why an operation was refused. A refused operation changes nothing.
#[derive(Clone, Copy, Debug, PartialEq, Eq, Structural)]
pub enum PoolError {
    /// The operation is not defined for the pool's curve.
    UnsupportedOperation,
    /// A protective bound given by the caller was violated.
    SlippageExceeded,
    /// A token is not part of the pool, or input and output token coincide.
    InvalidToken,
    /// An account holds fewer shares than the operation needs.
    InsufficientShares,
    /// An account is not registered in the share ledger.
    NotRegistered,
    /// An account is registered already.
    AlreadyRegistered,
    /// An account that still holds shares cannot be unregistered.
    NonZeroBalance,
    /// A fee rate exceeds the bound that applies to it.
    FeeTooHigh,
    /// The pool's value exceeds its configured cap.
    TvlLimitExceeded,
    /// An amount vector has the wrong length, or holds or produces a zero
    /// where a positive amount is required.
    InvalidAmounts,
    /// A quantity does not fit in 128 bits.
    ArithmeticOverflow,
    /// Stored parts do not make up a well-formed pool.
    InvalidState,
}

} // verus!

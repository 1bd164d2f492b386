//! The reasons for which the pool rejects a call.

use vstd::prelude::*;

verus! {

/// Every rejection is final for the call that caused it and leaves the pool
/// as it was.
#[derive(Clone, Copy, Debug, PartialEq, Eq, Structural)]
pub enum MixerError {
    /// The attached value is not one of the accepted denominations.
    InvalidDenomination,
    /// The commitment already has a live deposit.
    DuplicateCommitment,
    /// No live deposit stands behind the commitment.
    UnknownCommitment,
    /// The proof presented with a withdrawal does not fit its request.
    InvalidAuthorization,
    /// The authorization token was consumed by an earlier withdrawal.
    TokenAlreadySpent,
    /// The deposit has not yet been locked for the minimum delay.
    WithdrawalTooEarly,
    /// The caller is not the pool's owner.
    Unauthorized,
    /// The fee rate is above the maximum.
    FeeTooHigh,
    /// The pool has been set up before.
    AlreadyInitialized,
}

} // verus!

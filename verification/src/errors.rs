//! The error taxonomy of the bridge core. Every public operation returns a
//! typed failure instead of panicking; callers decide whether to retry or
//! surface the error.

use vstd::prelude::*;

verus! {

/// Every failure a bridge operation can report.
#[derive(Clone, Copy, Debug, PartialEq, Eq, Structural)]
pub enum BridgeError {
    /// The header's hash does not satisfy its claimed target, its compact
    /// target encoding is out of range, or its difficulty does not match the
    /// recomputed expectation.
    InvalidProofOfWork,
    /// The header's previous-hash matches no stored header.
    UnknownParent,
    /// A header with the same hash is already stored.
    DuplicateHeader,
    /// The header's timestamp violates the median-time-past rule or exceeds
    /// the future-drift bound.
    TimestampInvalid,
    /// The block hash named in a proof is not stored in the relay.
    HeaderUnknown,
    /// The block named in a proof is not on the best chain or lacks
    /// sufficient confirmations.
    BlockNotStable,
    /// The recomputed Merkle root does not match the stored header's root.
    MerkleMismatch,
    /// The raw transaction bytes do not decode as a transaction.
    MalformedTransaction,
    /// No transaction output pays the expected destination address.
    NoMatchingOutput,
    /// The proven payment is below what the request demands, and the caller
    /// is not entitled to proceed with the reduced amount.
    PaymentTooLow,
    /// A collateral withdrawal or transfer would leave less collateral than
    /// the applicable threshold demands, or the source holds too little.
    InsufficientCollateral,
    /// A reservation would push the vault's obligations over what its
    /// collateral supports.
    ExceedsCapacity,
    /// A balance computation would exceed the machine range; the operation
    /// aborts rather than wrapping.
    ArithmeticOverflow,
    /// The request id matches no stored request.
    RequestNotFound,
    /// The request was already completed.
    RequestAlreadyCompleted,
    /// The request was already cancelled.
    RequestAlreadyCancelled,
    /// The commit period has elapsed; the request can only be cancelled.
    CommitPeriodExpired,
    /// The commit period has not elapsed yet; cancelling is not permitted.
    PeriodNotExpired,
    /// The refund was already executed once.
    RefundAlreadyExecuted,
    /// The vault id matches no registered vault.
    VaultNotFound,
    /// The vault is already registered.
    VaultAlreadyRegistered,
    /// The vault is liquidated and cannot take this operation.
    VaultNotActive,
    /// The vault is still healthy under the liquidation threshold.
    VaultNotUndercollateralized,
    /// The target vault cannot back the requested issue amount.
    VaultCapacityExceeded,
    /// A balance delta disagrees with the recorded reservation; the record
    /// halts rather than mutating past a detected breach.
    InvariantBreach,
    /// No exchange rate has been supplied by the price feed.
    OracleUnavailable,
}

} // verus!

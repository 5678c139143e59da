//! Error taxonomy of the pool: every failure is fail-fast and means "reject
//! this transaction"; no operation retries or partially commits.

use vstd::prelude::*;

verus! {

/// Failure modes of the pairing-based proof verifier.
///
/// `ProofVerificationFailed` deliberately covers every cryptographic
/// rejection without saying which part of the check failed.
#[derive(Debug, Clone, Copy, PartialEq, Eq, Structural)]
pub enum Groth16Error {
    InvalidG1Length,
    InvalidG2Length,
    InvalidPublicInputsLength,
    PublicInputGreaterThanFieldSize,
    PreparingInputsG1MulFailed,
    PreparingInputsG1AdditionFailed,
    ProofVerificationFailed,
}

impl Groth16Error {
    /// A human-readable description of the failure.
    pub fn message(&self) -> (m: &'static str) {
        match self {
            Groth16Error::InvalidG1Length => "Invalid G1 length",
            Groth16Error::InvalidG2Length => "Invalid G2 length",
            Groth16Error::InvalidPublicInputsLength => "Invalid public inputs length",
            Groth16Error::PublicInputGreaterThanFieldSize => {
                "Public input greater than field size"
            },
            Groth16Error::PreparingInputsG1MulFailed => {
                "Failed preparing inputs: G1 multiplication failed"
            },
            Groth16Error::PreparingInputsG1AdditionFailed => {
                "Failed preparing inputs: G1 addition failed"
            },
            Groth16Error::ProofVerificationFailed => "Proof verification failed",
        }
    }
}

/// Failure modes of the transaction protocol around the verifier.
#[derive(Debug, Clone, Copy, PartialEq, Eq, Structural)]
pub enum ErrorCode {
    Unauthorized,
    ExtDataHashMismatch,
    UnknownRoot,
    InvalidPublicAmountData,
    InsufficientFundsForWithdrawal,
    InsufficientFundsForFee,
    InvalidProof,
    InvalidFee,
    InvalidExtAmount,
    PublicAmountCalculationError,
    ArithmeticOverflow,
    DepositLimitExceeded,
    NullifierAlreadyUsed,
}

impl ErrorCode {
    /// A human-readable description of the failure.
    pub fn message(&self) -> (m: &'static str) {
        match self {
            ErrorCode::Unauthorized => "Not authorized to perform this action",
            ErrorCode::ExtDataHashMismatch => {
                "External data hash does not match the one in the proof"
            },
            ErrorCode::UnknownRoot => "Root is not known in the tree",
            ErrorCode::InvalidPublicAmountData => "Public amount is invalid",
            ErrorCode::InsufficientFundsForWithdrawal => "Insufficient funds for withdrawal",
            ErrorCode::InsufficientFundsForFee => "Insufficient funds for fee",
            ErrorCode::InvalidProof => "Proof is invalid",
            ErrorCode::InvalidFee => "Invalid fee",
            ErrorCode::InvalidExtAmount => "Invalid ext amount",
            ErrorCode::PublicAmountCalculationError => {
                "Public amount calculation resulted in an overflow/underflow"
            },
            ErrorCode::ArithmeticOverflow => "Arithmetic overflow/underflow occurred",
            ErrorCode::DepositLimitExceeded => "Deposit limit exceeded",
            ErrorCode::NullifierAlreadyUsed => "Nullifier has already been used",
        }
    }
}

} // verus!

use vstd::prelude::*;

verus! {

/// Why an operation on a topic or a commitment was refused.
#[derive(Clone, Copy, Debug, PartialEq, Eq, Structural)]
pub enum WorthHubError {
    CommitPhaseEnded,
    CommitPhaseNotEnded,
    RevealPhaseEnded,
    RevealPhaseNotEnded,
    InvalidTopicState,
    HashMismatch,
    AlreadyRevealed,
    NotRevealed,
    ZeroStake,
    StakeTooLow,
    UnauthorizedOracle,
    UnauthorizedAuthority,
    AlreadySettled,
    AlreadyFinalized,
    NoRevealedCommitments,
    ArithmeticOverflow,
    DescriptionTooLong,
    SymbolTooLong,
    InvalidDeadlines,
}

impl WorthHubError {
    /// A human-readable account of the error.
    pub fn message(&self) -> (r: &'static str) {
        match self {
            WorthHubError::CommitPhaseEnded => "Commit phase has ended",
            WorthHubError::CommitPhaseNotEnded => "Commit phase has not ended yet",
            WorthHubError::RevealPhaseEnded => "Reveal phase has ended",
            WorthHubError::RevealPhaseNotEnded => "Reveal phase has not ended yet",
            WorthHubError::InvalidTopicState => "Topic is not in the correct state for this operation",
            WorthHubError::HashMismatch => "Commitment hash does not match the revealed values",
            WorthHubError::AlreadyRevealed => "Commitment has already been revealed",
            WorthHubError::NotRevealed => "Commitment has not been revealed",
            WorthHubError::ZeroStake => "Stake amount must be greater than zero",
            WorthHubError::StakeTooLow => "Stake amount is below the minimum required",
            WorthHubError::UnauthorizedOracle => "Unauthorized: only the oracle authority can call this",
            WorthHubError::UnauthorizedAuthority => "Unauthorized: only the topic authority can call this",
            WorthHubError::AlreadySettled => "Topic has already been settled",
            WorthHubError::AlreadyFinalized => "Topic has already been finalized",
            WorthHubError::NoRevealedCommitments => "No revealed commitments to settle",
            WorthHubError::ArithmeticOverflow => "Arithmetic overflow in reward calculation",
            WorthHubError::DescriptionTooLong => "Description too long (max 256 bytes)",
            WorthHubError::SymbolTooLong => "Symbol too long (max 32 bytes)",
            WorthHubError::InvalidDeadlines => "Invalid deadline configuration",
        }
    }
}

} // verus!

use vstd::prelude::*;

verus! {

/// The phase of a topic. It only ever moves forward, in declaration order.
#[derive(Clone, Copy, Debug, PartialEq, Eq, Structural)]
pub enum TopicStatus {
    /// Accepting commitments
    Open,
    /// A reveal has happened; commitments are being opened
    Revealing,
    /// The oracle has published the truth value
    Finalized,
    /// Rewards have been distributed; nothing changes any more
    Settled,
}

/// Position of a status in the forward order of the lifecycle.
pub open spec fn status_rank(s: TopicStatus) -> nat {
    match s {
        TopicStatus::Open => 0,
        TopicStatus::Revealing => 1,
        TopicStatus::Finalized => 2,
        TopicStatus::Settled => 3,
    }
}

/// One prediction market.
#[derive(Debug)]
pub struct Topic {
    /// Identity of the creator
    pub authority: [u8; 32],
    /// Identity allowed to publish the truth value
    pub oracle_authority: [u8; 32],
    pub topic_id: u64,
    /// Free text, at most 256 bytes of UTF-8
    pub description: String,
    /// Trading symbol, at most 32 bytes of UTF-8
    pub symbol: String,
    /// Commitments are accepted strictly before this time
    pub commit_deadline: i64,
    /// Reveals are accepted strictly before this time
    pub reveal_deadline: i64,
    pub status: TopicStatus,
    /// Published truth, fixed point with scale `PRECISION`
    pub truth_value: i64,
    /// Sum of the stakes of all commitments
    pub total_stake: u64,
    pub commitment_count: u32,
    pub reveal_count: u32,
    pub min_stake: u64,
    pub vault_bump: u8,
    pub bump: u8,
}

impl Topic {
    /// Bytes a stored topic occupies, tag included.
    pub const MAX_SIZE: usize = 8 + 32 + 32 + 8 + (4 + 256) + (4 + 32) + 8 + 8 + 1 + 8 + 8 + 4 + 4
        + 8 + 1 + 1;

    /// What every topic satisfies between operations.
    pub open spec fn wf(&self) -> bool {
        &&& self.commit_deadline < self.reveal_deadline
        &&& self.reveal_count <= self.commitment_count
    }
}

/// One participant's sealed, staked prediction on a topic.
#[derive(Clone, Copy, Debug)]
pub struct Commitment {
    /// Key of the topic it belongs to
    pub topic: [u8; 32],
    pub participant: [u8; 32],
    /// Digest of prediction, salt and participant identity
    pub commitment_hash: [u8; 32],
    pub stake_amount: u64,
    /// Position among the topic's commitments, counted from 0
    pub submit_order: u32,
    /// Meaningful once revealed; fixed point with scale `PRECISION`
    pub prediction_value: i64,
    pub revealed: bool,
    /// Meaningful once revealed
    pub salt: [u8; 32],
    pub settled: bool,
    pub bump: u8,
}

impl Commitment {
    /// Bytes a stored commitment occupies, tag included.
    pub const MAX_SIZE: usize = 8 + 32 + 32 + 32 + 8 + 4 + 8 + 1 + 32 + 1 + 1;
}

} // verus!

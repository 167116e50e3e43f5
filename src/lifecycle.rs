use vstd::prelude::*;

use crate::commit_reveal::{bytes32_eq, commitment_hash_of, keccak_of, preimage};
use crate::errors::WorthHubError;
use crate::state::{status_rank, Commitment, Topic, TopicStatus};

verus! {

/// Longest accepted description, in bytes.
pub const MAX_DESCRIPTION_LEN: usize = 256;

/// Longest accepted symbol, in bytes.
pub const MAX_SYMBOL_LEN: usize = 32;

/// Length of the UTF-8 encoding of a string, as `str::len` reports it.
pub open spec fn utf8_len(s: Seq<char>) -> int {
    (vstd::utf8::encode_utf8(s).len() as usize) as int
}

/// Why creating a topic is refused, checked in this order; `None` when it is accepted.
pub open spec fn create_error(
    description: Seq<char>,
    symbol: Seq<char>,
    commit_deadline: i64,
    reveal_deadline: i64,
    now: i64,
) -> Option<WorthHubError> {
    if utf8_len(description) > MAX_DESCRIPTION_LEN {
        Some(WorthHubError::DescriptionTooLong)
    } else if utf8_len(symbol) > MAX_SYMBOL_LEN {
        Some(WorthHubError::SymbolTooLong)
    } else if commit_deadline <= now || reveal_deadline <= commit_deadline {
        Some(WorthHubError::InvalidDeadlines)
    } else {
        None
    }
}

/// Opens a new topic at time `now`, with every aggregate at zero.
pub fn handle_create_topic(
    authority: [u8; 32],
    oracle_authority: [u8; 32],
    topic_id: u64,
    description: String,
    symbol: String,
    commit_deadline: i64,
    reveal_deadline: i64,
    min_stake: u64,
    vault_bump: u8,
    bump: u8,
    now: i64,
) -> (r: Result<Topic, WorthHubError>)
    ensures
        match r {
            Ok(t) => {
                &&& create_error(description@, symbol@, commit_deadline, reveal_deadline, now)
                    is None
                &&& t.wf()
                &&& t.authority == authority
                &&& t.oracle_authority == oracle_authority
                &&& t.topic_id == topic_id
                &&& t.description@ == description@
                &&& t.symbol@ == symbol@
                &&& t.commit_deadline == commit_deadline
                &&& t.reveal_deadline == reveal_deadline
                &&& t.status == TopicStatus::Open
                &&& t.truth_value == 0
                &&& t.total_stake == 0
                &&& t.commitment_count == 0
                &&& t.reveal_count == 0
                &&& t.min_stake == min_stake
                &&& t.vault_bump == vault_bump
                &&& t.bump == bump
            },
            Err(e) => create_error(description@, symbol@, commit_deadline, reveal_deadline, now)
                == Some(e),
        },
{
    if description.as_str().len() > MAX_DESCRIPTION_LEN {
        return Err(WorthHubError::DescriptionTooLong);
    }
    if symbol.as_str().len() > MAX_SYMBOL_LEN {
        return Err(WorthHubError::SymbolTooLong);
    }
    if commit_deadline <= now {
        return Err(WorthHubError::InvalidDeadlines);
    }
    if reveal_deadline <= commit_deadline {
        return Err(WorthHubError::InvalidDeadlines);
    }
    Ok(Topic {
        authority,
        oracle_authority,
        topic_id,
        description,
        symbol,
        commit_deadline,
        reveal_deadline,
        status: TopicStatus::Open,
        truth_value: 0,
        total_stake: 0,
        commitment_count: 0,
        reveal_count: 0,
        min_stake,
        vault_bump,
        bump,
    })
}

/// Why a commitment of `stake` at time `now` is refused, checked in this order.
pub open spec fn commit_error(t: Topic, stake: u64, now: i64) -> Option<WorthHubError> {
    if t.status != TopicStatus::Open {
        Some(WorthHubError::InvalidTopicState)
    } else if now >= t.commit_deadline {
        Some(WorthHubError::CommitPhaseEnded)
    } else if stake == 0 {
        Some(WorthHubError::ZeroStake)
    } else if stake < t.min_stake {
        Some(WorthHubError::StakeTooLow)
    } else if t.total_stake + stake > u64::MAX || t.commitment_count == u32::MAX {
        Some(WorthHubError::ArithmeticOverflow)
    } else {
        None
    }
}

/// The topic after accepting a commitment of `stake`.
pub open spec fn topic_after_commit(t: Topic, stake: u64) -> Topic {
    Topic {
        total_stake: (t.total_stake + stake) as u64,
        commitment_count: (t.commitment_count + 1) as u32,
        ..t
    }
}

/// Records a sealed prediction with its stake; the new commitment takes the
/// next submission order. On refusal the topic is left as it was.
pub fn handle_commit(
    topic: &mut Topic,
    topic_key: [u8; 32],
    participant: [u8; 32],
    commitment_hash: [u8; 32],
    stake_amount: u64,
    bump: u8,
    now: i64,
) -> (r: Result<Commitment, WorthHubError>)
    ensures
        match r {
            Ok(c) => {
                &&& commit_error(*old(topic), stake_amount, now) is None
                &&& *final(topic) == topic_after_commit(*old(topic), stake_amount)
                &&& c.topic == topic_key
                &&& c.participant == participant
                &&& c.commitment_hash == commitment_hash
                &&& c.stake_amount == stake_amount
                &&& c.submit_order == old(topic).commitment_count
                &&& c.prediction_value == 0
                &&& !c.revealed
                &&& c.salt@ == Seq::new(32, |i: int| 0u8)
                &&& !c.settled
                &&& c.bump == bump
            },
            Err(e) => {
                &&& commit_error(*old(topic), stake_amount, now) == Some(e)
                &&& *final(topic) == *old(topic)
            },
        },
        old(topic).wf() ==> final(topic).wf(),
        status_rank(final(topic).status) >= status_rank(old(topic).status),
{
    if topic.status != TopicStatus::Open {
        return Err(WorthHubError::InvalidTopicState);
    }
    if now >= topic.commit_deadline {
        return Err(WorthHubError::CommitPhaseEnded);
    }
    if stake_amount == 0 {
        return Err(WorthHubError::ZeroStake);
    }
    if stake_amount < topic.min_stake {
        return Err(WorthHubError::StakeTooLow);
    }
    let total = match topic.total_stake.checked_add(stake_amount) {
        Some(v) => v,
        None => {
            return Err(WorthHubError::ArithmeticOverflow);
        },
    };
    if topic.commitment_count == u32::MAX {
        return Err(WorthHubError::ArithmeticOverflow);
    }
    let order = topic.commitment_count;
    topic.commitment_count = order + 1;
    topic.total_stake = total;
    let salt: [u8; 32] = [0u8; 32];
    assert(salt@ =~= Seq::new(32, |i: int| 0u8));
    Ok(Commitment {
        topic: topic_key,
        participant,
        commitment_hash,
        stake_amount,
        submit_order: order,
        prediction_value: 0,
        revealed: false,
        salt,
        settled: false,
        bump,
    })
}

/// Why a reveal is refused, given the digest of what is revealed, checked in this order.
pub open spec fn reveal_error(
    t: Topic,
    c: Commitment,
    participant: Seq<u8>,
    digest: Seq<u8>,
    now: i64,
) -> Option<WorthHubError> {
    if t.status != TopicStatus::Open && t.status != TopicStatus::Revealing {
        Some(WorthHubError::InvalidTopicState)
    } else if c.revealed {
        Some(WorthHubError::AlreadyRevealed)
    } else if now < t.commit_deadline {
        Some(WorthHubError::CommitPhaseNotEnded)
    } else if now >= t.reveal_deadline {
        Some(WorthHubError::RevealPhaseEnded)
    } else if c.participant@ != participant || digest != c.commitment_hash@ {
        Some(WorthHubError::HashMismatch)
    } else if t.reveal_count == u32::MAX {
        Some(WorthHubError::ArithmeticOverflow)
    } else {
        None
    }
}

/// The topic after one more reveal: counted, and moved to `Revealing` if it was `Open`.
pub open spec fn topic_after_reveal(t: Topic) -> Topic {
    Topic { reveal_count: (t.reveal_count + 1) as u32, status: TopicStatus::Revealing, ..t }
}

/// The commitment once opened with `prediction` and `salt`.
pub open spec fn commitment_after_reveal(c: Commitment, prediction: i64, salt: [u8; 32]) -> Commitment {
    Commitment { prediction_value: prediction, salt, revealed: true, ..c }
}

/// Opens a commitment, given `digest`, the digest of `prediction`, `salt` and
/// `participant`. The identity must be the commitment's own: it is part of
/// what was hashed. On refusal nothing changes.
pub fn apply_reveal(
    topic: &mut Topic,
    commitment: &mut Commitment,
    participant: &[u8; 32],
    prediction_value: i64,
    salt: [u8; 32],
    digest: &[u8; 32],
    now: i64,
) -> (r: Result<(), WorthHubError>)
    ensures
        r is Ok <==> reveal_error(*old(topic), *old(commitment), participant@, digest@, now)
            is None,
        match r {
            Ok(_) => {
                &&& *final(topic) == topic_after_reveal(*old(topic))
                &&& *final(commitment) == commitment_after_reveal(
                    *old(commitment),
                    prediction_value,
                    salt,
                )
            },
            Err(e) => {
                &&& reveal_error(*old(topic), *old(commitment), participant@, digest@, now)
                    == Some(e)
                &&& *final(topic) == *old(topic)
                &&& *final(commitment) == *old(commitment)
            },
        },
        status_rank(final(topic).status) >= status_rank(old(topic).status),
{
    if topic.status != TopicStatus::Open && topic.status != TopicStatus::Revealing {
        return Err(WorthHubError::InvalidTopicState);
    }
    if commitment.revealed {
        return Err(WorthHubError::AlreadyRevealed);
    }
    if now < topic.commit_deadline {
        return Err(WorthHubError::CommitPhaseNotEnded);
    }
    if now >= topic.reveal_deadline {
        return Err(WorthHubError::RevealPhaseEnded);
    }
    if !bytes32_eq(&commitment.participant, participant) || !bytes32_eq(
        digest,
        &commitment.commitment_hash,
    ) {
        return Err(WorthHubError::HashMismatch);
    }
    if topic.reveal_count == u32::MAX {
        return Err(WorthHubError::ArithmeticOverflow);
    }
    commitment.prediction_value = prediction_value;
    commitment.salt = salt;
    commitment.revealed = true;
    topic.reveal_count = topic.reveal_count + 1;
    topic.status = TopicStatus::Revealing;
    Ok(())
}

/// Opens a commitment: checks the phase and the reveal window, recomputes the
/// digest of `prediction`, `salt` and `participant`, and compares it with the
/// stored commitment. On refusal nothing changes.
pub fn handle_reveal(
    topic: &mut Topic,
    commitment: &mut Commitment,
    participant: [u8; 32],
    prediction_value: i64,
    salt: [u8; 32],
    now: i64,
) -> (r: Result<(), WorthHubError>)
    ensures
        ({
            let digest = keccak_of(preimage(prediction_value, salt@, participant@));
            &&& r is Ok <==> reveal_error(*old(topic), *old(commitment), participant@, digest, now)
                is None
            &&& match r {
                Ok(_) => {
                    &&& *final(topic) == topic_after_reveal(*old(topic))
                    &&& *final(commitment) == commitment_after_reveal(
                        *old(commitment),
                        prediction_value,
                        salt,
                    )
                },
                Err(e) => {
                    &&& reveal_error(*old(topic), *old(commitment), participant@, digest, now)
                        == Some(e)
                    &&& *final(topic) == *old(topic)
                    &&& *final(commitment) == *old(commitment)
                },
            }
        }),
        status_rank(final(topic).status) >= status_rank(old(topic).status),
{
    let digest = commitment_hash_of(prediction_value, &salt, &participant);
    apply_reveal(topic, commitment, &participant, prediction_value, salt, &digest, now)
}

/// Why publishing the truth is refused, checked in this order.
pub open spec fn finalize_error(t: Topic, oracle: Seq<u8>, now: i64) -> Option<WorthHubError> {
    if t.oracle_authority@ != oracle {
        Some(WorthHubError::UnauthorizedOracle)
    } else if t.status != TopicStatus::Open && t.status != TopicStatus::Revealing {
        Some(WorthHubError::AlreadyFinalized)
    } else if now < t.reveal_deadline {
        Some(WorthHubError::RevealPhaseNotEnded)
    } else {
        None
    }
}

/// The oracle publishes the truth once the reveal window has closed.
pub fn handle_finalize(topic: &mut Topic, oracle: [u8; 32], truth_value: i64, now: i64) -> (r:
    Result<(), WorthHubError>)
    ensures
        match r {
            Ok(_) => {
                &&& finalize_error(*old(topic), oracle@, now) is None
                &&& *final(topic) == (Topic {
                    truth_value,
                    status: TopicStatus::Finalized,
                    ..*old(topic)
                })
            },
            Err(e) => {
                &&& finalize_error(*old(topic), oracle@, now) == Some(e)
                &&& *final(topic) == *old(topic)
            },
        },
        status_rank(final(topic).status) >= status_rank(old(topic).status),
{
    if !bytes32_eq(&topic.oracle_authority, &oracle) {
        return Err(WorthHubError::UnauthorizedOracle);
    }
    if topic.status != TopicStatus::Open && topic.status != TopicStatus::Revealing {
        return Err(WorthHubError::AlreadyFinalized);
    }
    if now < topic.reveal_deadline {
        return Err(WorthHubError::RevealPhaseNotEnded);
    }
    topic.truth_value = truth_value;
    topic.status = TopicStatus::Finalized;
    Ok(())
}

} // verus!

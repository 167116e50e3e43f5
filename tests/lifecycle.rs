use worth_hub::commit_reveal::{
    bytes32_eq, commitment_hash_of, hash_preimage, prediction_le_bytes, verify,
};
use worth_hub::errors::WorthHubError;
use worth_hub::lifecycle::{
    apply_reveal, handle_commit, handle_create_topic, handle_finalize, handle_reveal,
};
use worth_hub::state::{Commitment, Topic, TopicStatus};

const CREATOR: [u8; 32] = [1u8; 32];
const ORACLE: [u8; 32] = [2u8; 32];
const TOPIC_KEY: [u8; 32] = [3u8; 32];
const ALICE: [u8; 32] = [7u8; 32];
const BOB: [u8; 32] = [8u8; 32];

fn new_topic(min_stake: u64) -> Topic {
    handle_create_topic(
        CREATOR,
        ORACLE,
        42,
        "Will BTC close above 100k?".to_string(),
        "BTC-USD".to_string(),
        100,
        200,
        min_stake,
        254,
        253,
        50,
    )
    .unwrap()
}

fn salt() -> [u8; 32] {
    let mut s = [0u8; 32];
    for (i, b) in s.iter_mut().enumerate() {
        *b = i as u8;
    }
    s
}

#[test]
fn create_topic_starts_open_with_zero_aggregates() {
    let t = new_topic(10);
    assert_eq!(t.status, TopicStatus::Open);
    assert_eq!(t.total_stake, 0);
    assert_eq!(t.commitment_count, 0);
    assert_eq!(t.reveal_count, 0);
    assert_eq!(t.truth_value, 0);
    assert_eq!(t.min_stake, 10);
    assert_eq!(t.topic_id, 42);
    assert_eq!(t.authority, CREATOR);
    assert_eq!(t.oracle_authority, ORACLE);
    assert_eq!(t.symbol, "BTC-USD");
    assert_eq!(t.commit_deadline, 100);
    assert_eq!(t.reveal_deadline, 200);
    assert_eq!(t.vault_bump, 254);
    assert_eq!(t.bump, 253);
}

#[test]
fn create_topic_rejects_long_description() {
    let desc = "x".repeat(257);
    let r = handle_create_topic(
        CREATOR, ORACLE, 1, desc, "S".to_string(), 100, 200, 1, 0, 0, 50,
    );
    assert_eq!(r.unwrap_err(), WorthHubError::DescriptionTooLong);
    let ok = handle_create_topic(
        CREATOR, ORACLE, 1, "x".repeat(256), "S".to_string(), 100, 200, 1, 0, 0, 50,
    );
    assert!(ok.is_ok());
}

#[test]
fn create_topic_counts_description_in_bytes() {
    // 129 two-byte characters: 258 bytes
    let desc = "é".repeat(129);
    let r = handle_create_topic(
        CREATOR, ORACLE, 1, desc, "S".to_string(), 100, 200, 1, 0, 0, 50,
    );
    assert_eq!(r.unwrap_err(), WorthHubError::DescriptionTooLong);
}

#[test]
fn create_topic_rejects_long_symbol() {
    let r = handle_create_topic(
        CREATOR, ORACLE, 1, "d".to_string(), "S".repeat(33), 100, 200, 1, 0, 0, 50,
    );
    assert_eq!(r.unwrap_err(), WorthHubError::SymbolTooLong);
}

#[test]
fn create_topic_rejects_bad_deadlines() {
    let past = handle_create_topic(
        CREATOR, ORACLE, 1, "d".to_string(), "S".to_string(), 50, 200, 1, 0, 0, 50,
    );
    assert_eq!(past.unwrap_err(), WorthHubError::InvalidDeadlines);
    let inverted = handle_create_topic(
        CREATOR, ORACLE, 1, "d".to_string(), "S".to_string(), 100, 100, 1, 0, 0, 50,
    );
    assert_eq!(inverted.unwrap_err(), WorthHubError::InvalidDeadlines);
}

#[test]
fn commit_records_order_and_stake() {
    let mut t = new_topic(10);
    let c0 = handle_commit(&mut t, TOPIC_KEY, ALICE, [9u8; 32], 10, 1, 60).unwrap();
    let c1 = handle_commit(&mut t, TOPIC_KEY, BOB, [9u8; 32], 25, 2, 61).unwrap();
    assert_eq!(c0.submit_order, 0);
    assert_eq!(c1.submit_order, 1);
    assert_eq!(c1.stake_amount, 25);
    assert_eq!(c1.participant, BOB);
    assert_eq!(c1.topic, TOPIC_KEY);
    assert!(!c1.revealed && !c1.settled);
    assert_eq!(c1.salt, [0u8; 32]);
    assert_eq!(t.commitment_count, 2);
    assert_eq!(t.total_stake, 35);
}

#[test]
fn commit_after_deadline_is_rejected_and_changes_nothing() {
    let mut t = new_topic(10);
    handle_commit(&mut t, TOPIC_KEY, ALICE, [9u8; 32], 10, 1, 60).unwrap();
    let r = handle_commit(&mut t, TOPIC_KEY, BOB, [9u8; 32], 10, 1, 100);
    assert_eq!(r.unwrap_err(), WorthHubError::CommitPhaseEnded);
    assert_eq!(t.commitment_count, 1);
    assert_eq!(t.total_stake, 10);
}

#[test]
fn commit_below_min_stake_is_rejected_and_changes_nothing() {
    let mut t = new_topic(10);
    let low = handle_commit(&mut t, TOPIC_KEY, BOB, [9u8; 32], 9, 1, 60);
    assert_eq!(low.unwrap_err(), WorthHubError::StakeTooLow);
    let zero = handle_commit(&mut t, TOPIC_KEY, BOB, [9u8; 32], 0, 1, 60);
    assert_eq!(zero.unwrap_err(), WorthHubError::ZeroStake);
    assert_eq!(t.commitment_count, 0);
    assert_eq!(t.total_stake, 0);
}

#[test]
fn commit_overflowing_total_stake_is_rejected() {
    let mut t = new_topic(1);
    handle_commit(&mut t, TOPIC_KEY, ALICE, [9u8; 32], u64::MAX, 1, 60).unwrap();
    let r = handle_commit(&mut t, TOPIC_KEY, BOB, [9u8; 32], 1, 1, 60);
    assert_eq!(r.unwrap_err(), WorthHubError::ArithmeticOverflow);
    assert_eq!(t.commitment_count, 1);
    assert_eq!(t.total_stake, u64::MAX);
}

#[test]
fn commit_on_finalized_topic_is_rejected() {
    let mut t = new_topic(1);
    handle_finalize(&mut t, ORACLE, 5, 200).unwrap();
    let r = handle_commit(&mut t, TOPIC_KEY, ALICE, [9u8; 32], 1, 1, 60);
    assert_eq!(r.unwrap_err(), WorthHubError::InvalidTopicState);
}

#[test]
fn prediction_bytes_match_little_endian_layout() {
    for v in [0i64, 1, -1, 15_000_000, i64::MIN, i64::MAX, -123_456_789] {
        assert_eq!(prediction_le_bytes(v), v.to_le_bytes().to_vec());
    }
}

#[test]
fn preimage_is_prediction_salt_identity() {
    let s = salt();
    let pre = hash_preimage(-2, &s, &ALICE);
    assert_eq!(pre.len(), 72);
    assert_eq!(&pre[0..8], &(-2i64).to_le_bytes());
    assert_eq!(&pre[8..40], &s);
    assert_eq!(&pre[40..72], &ALICE);
}

#[test]
fn commitment_hash_is_keccak256_of_preimage() {
    let h = commitment_hash_of(15_000_000, &salt(), &ALICE);
    let expected: [u8; 32] = [
        165, 200, 188, 99, 127, 60, 133, 229, 236, 195, 29, 53, 43, 156, 93, 195, 189, 19, 255,
        121, 21, 194, 0, 29, 80, 59, 231, 205, 253, 238, 8, 220,
    ];
    assert_eq!(h, expected);
}

#[test]
fn verify_accepts_exactly_the_committed_opening() {
    let s = salt();
    let h = commitment_hash_of(15_000_000, &s, &ALICE);
    assert!(verify(&h, 15_000_000, &s, &ALICE));
    // one bit flipped in the prediction
    assert!(!verify(&h, 15_000_001, &s, &ALICE));
    assert!(!verify(&h, 15_000_000 ^ (1 << 40), &s, &ALICE));
    // one bit flipped in the salt
    let mut s2 = s;
    s2[31] ^= 1;
    assert!(!verify(&h, 15_000_000, &s2, &ALICE));
    // one bit flipped in the identity
    let mut who = ALICE;
    who[0] ^= 0x80;
    assert!(!verify(&h, 15_000_000, &s, &who));
}

#[test]
fn bytes32_eq_compares_every_byte() {
    let mut b = ALICE;
    assert!(bytes32_eq(&ALICE, &b));
    b[31] = 0;
    assert!(!bytes32_eq(&ALICE, &b));
}

fn committed(t: &mut Topic, who: [u8; 32], prediction: i64, stake: u64) -> Commitment {
    let h = commitment_hash_of(prediction, &salt(), &who);
    handle_commit(t, TOPIC_KEY, who, h, stake, 0, 60).unwrap()
}

#[test]
fn reveal_opens_commitment_and_moves_topic_to_revealing() {
    let mut t = new_topic(1);
    let mut c = committed(&mut t, ALICE, -3_500_000, 5);
    handle_reveal(&mut t, &mut c, ALICE, -3_500_000, salt(), 150).unwrap();
    assert!(c.revealed);
    assert_eq!(c.prediction_value, -3_500_000);
    assert_eq!(c.salt, salt());
    assert_eq!(t.reveal_count, 1);
    assert_eq!(t.status, TopicStatus::Revealing);
}

#[test]
fn reveal_with_wrong_opening_is_rejected_and_changes_nothing() {
    let mut t = new_topic(1);
    let mut c = committed(&mut t, ALICE, 10, 5);
    let r = handle_reveal(&mut t, &mut c, ALICE, 11, salt(), 150);
    assert_eq!(r.unwrap_err(), WorthHubError::HashMismatch);
    assert!(!c.revealed);
    assert_eq!(c.prediction_value, 0);
    assert_eq!(t.reveal_count, 0);
    assert_eq!(t.status, TopicStatus::Open);
}

#[test]
fn reveal_by_another_participant_is_rejected() {
    let mut t = new_topic(1);
    let mut c = committed(&mut t, ALICE, 10, 5);
    let r = handle_reveal(&mut t, &mut c, BOB, 10, salt(), 150);
    assert_eq!(r.unwrap_err(), WorthHubError::HashMismatch);
}

#[test]
fn reveal_outside_window_is_rejected() {
    let mut t = new_topic(1);
    let mut c = committed(&mut t, ALICE, 10, 5);
    let early = handle_reveal(&mut t, &mut c, ALICE, 10, salt(), 99);
    assert_eq!(early.unwrap_err(), WorthHubError::CommitPhaseNotEnded);
    let late = handle_reveal(&mut t, &mut c, ALICE, 10, salt(), 200);
    assert_eq!(late.unwrap_err(), WorthHubError::RevealPhaseEnded);
}

#[test]
fn reveal_twice_is_rejected() {
    let mut t = new_topic(1);
    let mut c = committed(&mut t, ALICE, 10, 5);
    handle_reveal(&mut t, &mut c, ALICE, 10, salt(), 150).unwrap();
    let r = handle_reveal(&mut t, &mut c, ALICE, 10, salt(), 151);
    assert_eq!(r.unwrap_err(), WorthHubError::AlreadyRevealed);
    assert_eq!(t.reveal_count, 1);
}

#[test]
fn reveal_after_finalize_is_rejected() {
    let mut t = new_topic(1);
    let mut c = committed(&mut t, ALICE, 10, 5);
    handle_finalize(&mut t, ORACLE, 5, 250).unwrap();
    let r = handle_reveal(&mut t, &mut c, ALICE, 10, salt(), 150);
    assert_eq!(r.unwrap_err(), WorthHubError::InvalidTopicState);
}

#[test]
fn apply_reveal_compares_given_digest() {
    let mut t = new_topic(1);
    let mut c = committed(&mut t, ALICE, 10, 5);
    let wrong = [0u8; 32];
    let r = apply_reveal(&mut t, &mut c, &ALICE, 10, salt(), &wrong, 150);
    assert_eq!(r.unwrap_err(), WorthHubError::HashMismatch);
    let right = c.commitment_hash;
    apply_reveal(&mut t, &mut c, &ALICE, 10, salt(), &right, 150).unwrap();
    assert!(c.revealed);
}

#[test]
fn finalize_sets_truth_after_reveal_deadline() {
    let mut t = new_topic(1);
    handle_finalize(&mut t, ORACLE, -7, 200).unwrap();
    assert_eq!(t.status, TopicStatus::Finalized);
    assert_eq!(t.truth_value, -7);
}

#[test]
fn finalize_errors() {
    let mut t = new_topic(1);
    let stranger = handle_finalize(&mut t, CREATOR, 1, 250);
    assert_eq!(stranger.unwrap_err(), WorthHubError::UnauthorizedOracle);
    let early = handle_finalize(&mut t, ORACLE, 1, 199);
    assert_eq!(early.unwrap_err(), WorthHubError::RevealPhaseNotEnded);
    assert_eq!(t.status, TopicStatus::Open);
    handle_finalize(&mut t, ORACLE, 1, 250).unwrap();
    let again = handle_finalize(&mut t, ORACLE, 2, 260);
    assert_eq!(again.unwrap_err(), WorthHubError::AlreadyFinalized);
    assert_eq!(t.truth_value, 1);
}

#[test]
fn error_messages_are_readable() {
    assert_eq!(WorthHubError::ZeroStake.message(), "Stake amount must be greater than zero");
    assert_eq!(Topic::MAX_SIZE, 8 + 32 + 32 + 8 + 260 + 36 + 8 + 8 + 1 + 8 + 8 + 4 + 4 + 8 + 1 + 1);
    assert_eq!(Commitment::MAX_SIZE, 159);
}

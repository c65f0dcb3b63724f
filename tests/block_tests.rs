use crypto::digest::Digest;
use crypto::sha2::Sha256;
use hashchain::block::{has_target_prefix, Block, TARGET_HEXS};
use hashchain::error::ChainError;

fn record(ts: u128, data: &str, prev: &str, hash: &str, nonce: i32) -> Vec<u8> {
    bincode::serialize(&(ts, data.to_string(), prev.to_string(), hash.to_string(), nonce)).unwrap()
}

fn expected_hash(prev: &str, data: &str, ts: u128, nonce: i32) -> String {
    let bytes = bincode::serialize(&(prev.to_string(), data.to_string(), ts, nonce)).unwrap();
    let mut hasher = Sha256::new();
    hasher.input(&bytes);
    hasher.result_str()
}

#[test]
fn target_is_seven_hex_digits() {
    assert_eq!(TARGET_HEXS, 7);
}

#[test]
fn target_prefix_accepts_seven_zeros() {
    assert!(has_target_prefix("0000000"));
    assert!(has_target_prefix("0000000f3a9"));
    assert!(has_target_prefix("00000000000"));
}

#[test]
fn target_prefix_rejects_short_or_nonzero() {
    assert!(!has_target_prefix(""));
    assert!(!has_target_prefix("000000"));
    assert!(!has_target_prefix("000000a0000"));
    assert!(!has_target_prefix("f000000000000"));
}

#[test]
fn record_round_trip_keeps_fields() {
    let bytes = record(1_700_000_000_123, "Send 1 BTC", "00000001ab", "0000000cd", 42);
    let b = Block::from_record(&bytes).unwrap();
    assert_eq!(b.get_timestamp(), 1_700_000_000_123);
    assert_eq!(b.get_data(), "Send 1 BTC");
    assert_eq!(b.get_prev_hash(), "00000001ab");
    assert_eq!(b.get_hash(), "0000000cd");
    assert_eq!(b.get_nonce(), 42);
    assert_eq!(b.to_record().unwrap(), bytes);
}

#[test]
fn record_layout_is_little_endian_with_length_prefixes() {
    let bytes = record(1, "ab", "", "h", -1);
    let b = Block::from_record(&bytes).unwrap();
    let mut expected: Vec<u8> = vec![1];
    expected.extend_from_slice(&[0u8; 15]);
    expected.extend_from_slice(&[2, 0, 0, 0, 0, 0, 0, 0]);
    expected.extend_from_slice(b"ab");
    expected.extend_from_slice(&[0u8; 8]);
    expected.extend_from_slice(&[1, 0, 0, 0, 0, 0, 0, 0]);
    expected.extend_from_slice(b"h");
    expected.extend_from_slice(&[0xff, 0xff, 0xff, 0xff]);
    assert_eq!(b.to_record().unwrap(), expected);
}

#[test]
fn garbage_record_is_an_encoding_error() {
    assert!(matches!(Block::from_record(&[1, 2, 3]), Err(ChainError::Encoding)));
    assert!(matches!(Block::from_record(&[]), Err(ChainError::Encoding)));
}

#[test]
fn recomputed_hash_is_sha256_of_encoded_fields() {
    let bytes = record(1_600_000_000_000, "A", "prev", "ignored", 7);
    let b = Block::from_record(&bytes).unwrap();
    let h = b.compute_hash().unwrap();
    assert_eq!(h.len(), 64);
    assert_eq!(h, expected_hash("prev", "A", 1_600_000_000_000, 7));
    assert_ne!(h.as_bytes(), bytes.as_slice());
}

#[test]
fn recomputing_the_hash_is_deterministic() {
    let bytes = record(5, "same", "p", "x", 3);
    let a = Block::from_record(&bytes).unwrap();
    let b = Block::from_record(&bytes).unwrap();
    assert_eq!(a.compute_hash().unwrap(), a.compute_hash().unwrap());
    assert_eq!(a.compute_hash().unwrap(), b.compute_hash().unwrap());
}

#[test]
fn changing_a_field_changes_the_hash() {
    let base = Block::from_record(&record(5, "same", "p", "x", 3)).unwrap();
    let other_nonce = Block::from_record(&record(5, "same", "p", "x", 4)).unwrap();
    let other_data = Block::from_record(&record(5, "Same", "p", "x", 3)).unwrap();
    let other_time = Block::from_record(&record(6, "same", "p", "x", 3)).unwrap();
    let h = base.compute_hash().unwrap();
    assert_ne!(h, other_nonce.compute_hash().unwrap());
    assert_ne!(h, other_data.compute_hash().unwrap());
    assert_ne!(h, other_time.compute_hash().unwrap());
}

#[test]
fn validate_matches_the_target_of_the_recomputed_hash() {
    let b = Block::from_record(&record(5, "same", "p", "0000000", 3)).unwrap();
    let h = b.compute_hash().unwrap();
    assert_eq!(b.validate().unwrap(), has_target_prefix(&h));
    assert_eq!(b.validate().unwrap(), h.starts_with("0000000"));
}

#[test]
fn mining_a_short_range_reports_no_winner() {
    let r = Block::mine_at("A".to_string(), "".to_string(), 1_600_000_000_000, 3).unwrap();
    assert!(r.is_none());
    for nonce in 0..=3 {
        assert!(!expected_hash("", "A", 1_600_000_000_000, nonce).starts_with("0000000"));
    }
}

#[test]
fn hash_data_and_records_always_encode() {
    let b = Block::from_record(&record(0, "", "", "", i32::MIN)).unwrap();
    assert!(b.validate().is_ok());
    assert_eq!(b.compute_hash().unwrap().len(), 64);
    assert_eq!(b.to_record().unwrap().len(), 16 + 8 * 3 + 4);
}

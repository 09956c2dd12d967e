//! Headers: the serialization round trip with the cached hash, the hash
//! check under single-field flips, the target check, and the bounded
//! proof-of-work search.

use maincore::mainheader::Mainheader;
use maincore::mainheader::MainheaderError;
use maincore::mainheader::mine_mainheader_with_cpu;
use maincore::mainheader::unserialize_mainheader;

fn sample_header() -> Mainheader {
    let prev = maincore::hash::Hash::new([1u8; 32]);
    let root = maincore::hash::Hash::new([2u8; 32]);
    let draft = Mainheader::new(
        7,
        prev.clone(),
        root.clone(),
        1_700_000_123,
        0x1D00_FFFF,
        42,
        maincore::hash::Hash::new_empty(),
    );
    let hash = draft.compute_hash();
    Mainheader::new(7, prev, root, 1_700_000_123, 0x1D00_FFFF, 42, hash)
}

fn assert_headers_equal(a: &Mainheader, b: &Mainheader) {
    assert_eq!(a.get_version(), b.get_version());
    assert!(a.get_prev_hash().is_eq(&b.get_prev_hash()));
    assert!(a.get_root_hash().is_eq(&b.get_root_hash()));
    assert_eq!(a.get_timestamp(), b.get_timestamp());
    assert_eq!(a.get_bits(), b.get_bits());
    assert_eq!(a.get_nonce(), b.get_nonce());
    assert!(a.get_hash().is_eq(&b.get_hash()));
}

#[test]
fn header_serialization_round_trips_with_cached_hash() {
    let h = sample_header();
    let bytes = h.serialize();
    let back = unserialize_mainheader(bytes).unwrap();
    assert_headers_equal(&h, &back);
}

#[test]
fn header_round_trips_with_negative_timestamp() {
    let h = Mainheader::new(
        1,
        maincore::hash::Hash::new([9u8; 32]),
        maincore::hash::Hash::new([8u8; 32]),
        -12345,
        0,
        u32::MAX,
        maincore::hash::Hash::new([7u8; 32]),
    );
    let back = unserialize_mainheader(h.serialize()).unwrap();
    assert_headers_equal(&h, &back);
}

#[test]
fn unserialize_header_rejects_truncated_bytes() {
    let mut bytes = sample_header().serialize();
    bytes.pop();
    assert!(matches!(
        unserialize_mainheader(bytes),
        Err(MainheaderError::BufferReaderError(_)),
    ));
}

#[test]
fn check_hash_accepts_a_consistent_header() {
    assert!(sample_header().check_hash());
}

#[test]
fn check_hash_rejects_a_flip_of_any_field() {
    let h = sample_header();
    let old_hash = h.get_hash();
    let flips = [
        Mainheader::new(
            h.get_version() + 1,
            h.get_prev_hash(),
            h.get_root_hash(),
            h.get_timestamp(),
            h.get_bits(),
            h.get_nonce(),
            old_hash.clone(),
        ),
        Mainheader::new(
            h.get_version(),
            maincore::hash::Hash::new([0xAA; 32]),
            h.get_root_hash(),
            h.get_timestamp(),
            h.get_bits(),
            h.get_nonce(),
            old_hash.clone(),
        ),
        Mainheader::new(
            h.get_version(),
            h.get_prev_hash(),
            maincore::hash::Hash::new([0xBB; 32]),
            h.get_timestamp(),
            h.get_bits(),
            h.get_nonce(),
            old_hash.clone(),
        ),
        Mainheader::new(
            h.get_version(),
            h.get_prev_hash(),
            h.get_root_hash(),
            h.get_timestamp() + 1,
            h.get_bits(),
            h.get_nonce(),
            old_hash.clone(),
        ),
        Mainheader::new(
            h.get_version(),
            h.get_prev_hash(),
            h.get_root_hash(),
            h.get_timestamp(),
            h.get_bits() ^ 1,
            h.get_nonce(),
            old_hash.clone(),
        ),
        Mainheader::new(
            h.get_version(),
            h.get_prev_hash(),
            h.get_root_hash(),
            h.get_timestamp(),
            h.get_bits(),
            h.get_nonce() + 1,
            old_hash.clone(),
        ),
    ];
    for flipped in flips.iter() {
        assert!(!flipped.check_hash());
    }
}

#[test]
fn check_target_passes_below_and_fails_at_or_above() {
    let h = sample_header();
    // Exponent 36, mantissa 1: the target exceeds any 32-byte hash.
    let always = Mainheader::new(
        h.get_version(),
        h.get_prev_hash(),
        h.get_root_hash(),
        h.get_timestamp(),
        0x2400_0001,
        h.get_nonce(),
        h.get_hash(),
    );
    assert!(always.check_target());

    // A zero target: no hash is strictly below it.
    let never = Mainheader::new(
        h.get_version(),
        h.get_prev_hash(),
        h.get_root_hash(),
        h.get_timestamp(),
        0x0300_0000,
        h.get_nonce(),
        h.get_hash(),
    );
    assert!(!never.check_target());

    // A target encoded from the hash itself is at or below the hash:
    // the strict comparison fails.
    let bits_of_hash = maincore::compact::compact_from_bigint(&h.get_hash().to_vec());
    let at = Mainheader::new(
        h.get_version(),
        h.get_prev_hash(),
        h.get_root_hash(),
        h.get_timestamp(),
        bits_of_hash,
        h.get_nonce(),
        h.get_hash(),
    );
    assert!(!at.check_target());
}

#[test]
fn mining_succeeds_on_first_attempt_with_maximum_target() {
    let mined = mine_mainheader_with_cpu(
        1,
        maincore::hash::Hash::new([3u8; 32]),
        maincore::hash::Hash::new([4u8; 32]),
        1_700_000_000,
        0x2400_0001,
        1,
        16,
    )
    .unwrap();
    assert_eq!(mined.get_nonce(), 1);
    assert!(mined.check_hash());
    assert!(mined.check_target());
}

#[test]
fn mining_reports_unsuccessful_on_zero_target() {
    let r = mine_mainheader_with_cpu(
        1,
        maincore::hash::Hash::new([3u8; 32]),
        maincore::hash::Hash::new([4u8; 32]),
        1_700_000_000,
        0x0300_0000,
        1,
        64,
    );
    assert!(matches!(r, Err(MainheaderError::MiningUnsuccessful)));
}

#[test]
fn mining_resumes_from_the_given_start_nonce() {
    let mined = mine_mainheader_with_cpu(
        1,
        maincore::hash::Hash::new([3u8; 32]),
        maincore::hash::Hash::new([4u8; 32]),
        1_700_000_000,
        0x2400_0001,
        5000,
        16,
    )
    .unwrap();
    assert_eq!(mined.get_nonce(), 5000);
}

//! The compact target encoding: decode vectors at exponent boundaries, the
//! encode/decode round trip on normalized values, and the little-endian
//! integer comparison behind the target check.

use maincore::bigint::bigint_from_u64;
use maincore::bigint::div_small;
use maincore::bigint::effective_len;
use maincore::bigint::le_bytes_lt;
use maincore::bigint::mul_small;
use maincore::compact::bigint_from_compact;
use maincore::compact::compact_from_bigint;

fn value_of(bytes: &Vec<u8>) -> u128 {
    let mut v: u128 = 0;
    for (i, b) in bytes.iter().enumerate() {
        v += (*b as u128) << (8 * i);
    }
    v
}

#[test]
fn decode_exponent_zero_shifts_the_mantissa_out() {
    // exponent 0: mantissa >> 24 == 0 for any 24-bit mantissa.
    assert_eq!(value_of(&bigint_from_compact(0x0012_3456)), 0);
}

#[test]
fn decode_exponent_below_three_shifts_right() {
    // exponent 1: mantissa >> 16.
    assert_eq!(value_of(&bigint_from_compact(0x0112_3456)), 0x12);
    // exponent 2: mantissa >> 8.
    assert_eq!(value_of(&bigint_from_compact(0x0212_3456)), 0x1234);
}

#[test]
fn decode_exponent_three_is_the_mantissa() {
    assert_eq!(value_of(&bigint_from_compact(0x0312_3456)), 0x12_3456);
    assert_eq!(value_of(&bigint_from_compact(0x0300_0000)), 0);
}

#[test]
fn decode_large_exponent_shifts_left_by_bytes() {
    // exponent 4: one byte up.
    assert_eq!(value_of(&bigint_from_compact(0x0412_3456)), 0x12_3456_00);
    // exponent 8: five bytes up.
    assert_eq!(value_of(&bigint_from_compact(0x0800_0001)), 1u128 << 40);
    let wide = bigint_from_compact(0x2000_FFFF);
    assert_eq!(effective_len(&wide), 31);
}

#[test]
fn encode_small_values_uses_exponent_three() {
    assert_eq!(compact_from_bigint(&vec![]), 0x0300_0000);
    assert_eq!(compact_from_bigint(&vec![0x56, 0x34, 0x12]), 0x0312_3456);
    assert_eq!(compact_from_bigint(&vec![0x01]), 0x0300_0001);
}

#[test]
fn encode_counts_the_value_bytes_into_the_exponent() {
    // Four bytes: exponent 4, top three bytes as the mantissa.
    assert_eq!(compact_from_bigint(&vec![0x00, 0x56, 0x34, 0x12]), 0x0412_3456);
    // Trailing high zero bytes change nothing.
    assert_eq!(
        compact_from_bigint(&vec![0x00, 0x56, 0x34, 0x12, 0x00, 0x00]),
        0x0412_3456,
    );
}

#[test]
fn compact_round_trip_on_normalized_values() {
    // Normalized: a 24-bit mantissa at a whole-byte position.
    for c in [0x0300_0000u32, 0x0300_0001, 0x03FF_FFFF, 0x0412_3456, 0x1DFF_FFFF, 0x2001_00FF] {
        let decoded = bigint_from_compact(c);
        assert_eq!(compact_from_bigint(&decoded), c);
    }
}

#[test]
fn compact_encode_normalizes_shifted_mantissas() {
    // A mantissa with its top byte unused re-encodes with a smaller
    // exponent: 0x0400_0012 denotes 0x12 << 8 == 0x1200, three bytes or
    // fewer, so it comes back as exponent three.
    let decoded = bigint_from_compact(0x0400_0012);
    assert_eq!(value_of(&decoded), 0x1200);
    assert_eq!(compact_from_bigint(&decoded), 0x0300_1200);
}

#[test]
fn le_bytes_lt_compares_values_not_lengths() {
    let a = vec![0xFF, 0x00];
    let b = vec![0x00, 0x01];
    assert!(le_bytes_lt(&a, &b));
    assert!(!le_bytes_lt(&b, &a));
    // High zero padding changes nothing.
    let padded = vec![0xFF, 0x00, 0x00, 0x00];
    assert!(!le_bytes_lt(&a, &padded));
    assert!(!le_bytes_lt(&padded, &a));
    // Strictness: equal values are not below each other.
    assert!(!le_bytes_lt(&a, &a));
}

#[test]
fn word_arithmetic_on_byte_vectors() {
    let a = bigint_from_u64(1_000_000_007);
    assert_eq!(value_of(&a), 1_000_000_007);
    let product = mul_small(&a, 1_000_000);
    assert_eq!(value_of(&product), 1_000_000_007_000_000);
    let quotient = div_small(&product, 2_000_000);
    assert_eq!(value_of(&quotient), 500_000_003);
    let exact = div_small(&product, 1_000_000);
    assert_eq!(value_of(&exact), 1_000_000_007);
}

#[test]
fn effective_len_ignores_trailing_zero_bytes() {
    assert_eq!(effective_len(&vec![]), 0);
    assert_eq!(effective_len(&vec![0, 0, 0]), 0);
    assert_eq!(effective_len(&vec![1, 0, 0]), 1);
    assert_eq!(effective_len(&vec![0, 0, 5]), 3);
}

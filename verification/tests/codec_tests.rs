//! Round trips and error paths of the binary codec.

use maincore::codec::BufferReader;
use maincore::codec::BufferReaderError;
use maincore::codec::BufferWriter;

#[test]
fn varint_round_trips_at_width_boundaries() {
    let values: [u64; 10] = [
        0,
        1,
        252,
        253,
        254,
        0xFFFF,
        0x1_0000,
        0xFFFF_FFFF,
        0x1_0000_0000,
        u64::MAX,
    ];
    for &v in values.iter() {
        let mut w = BufferWriter::new();
        w.put_var_u64(v);
        let mut r = BufferReader::new(w.get_bytes());
        assert_eq!(r.get_var_u64().unwrap(), v);
    }
}

#[test]
fn varint_encoding_lengths() {
    let mut w = BufferWriter::new();
    w.put_var_u64(252);
    assert_eq!(w.get_bytes(), vec![252]);
    let mut w = BufferWriter::new();
    w.put_var_u64(253);
    assert_eq!(w.get_bytes(), vec![253, 253, 0]);
    let mut w = BufferWriter::new();
    w.put_var_u64(0x1_0000);
    assert_eq!(w.get_bytes(), vec![254, 0, 0, 1, 0]);
    let mut w = BufferWriter::new();
    w.put_var_u64(0x1_0000_0000);
    assert_eq!(w.get_bytes(), vec![255, 0, 0, 0, 0, 1, 0, 0, 0]);
}

#[test]
fn var_u32_rejects_sixty_four_bit_prefix() {
    let mut w = BufferWriter::new();
    w.put_var_u64(0x1_0000_0000);
    let mut r = BufferReader::new(w.get_bytes());
    assert_eq!(r.get_var_u32(), Err(BufferReaderError::ValueFoundExceedsU32));
}

#[test]
fn var_u32_accepts_thirty_two_bit_values() {
    let mut w = BufferWriter::new();
    w.put_var_u32(0xFFFF_FFFF);
    let mut r = BufferReader::new(w.get_bytes());
    assert_eq!(r.get_var_u32().unwrap(), 0xFFFF_FFFF);
}

#[test]
fn fixed_width_little_endian_round_trips() {
    let mut w = BufferWriter::new();
    w.put_u8(0xAB);
    w.put_u16(0x1234);
    w.put_u32(0xDEAD_BEEF);
    w.put_u64(0x0102_0304_0506_0708);
    let mut r = BufferReader::new(w.get_bytes());
    assert_eq!(r.get_u8().unwrap(), 0xAB);
    assert_eq!(r.get_u16().unwrap(), 0x1234);
    assert_eq!(r.get_u32().unwrap(), 0xDEAD_BEEF);
    assert_eq!(r.get_u64().unwrap(), 0x0102_0304_0506_0708);
    assert_eq!(r.get_counter(), 15);
}

#[test]
fn fixed_width_is_little_endian_on_the_wire() {
    let mut w = BufferWriter::new();
    w.put_u32(0x0102_0304);
    assert_eq!(w.get_bytes(), vec![0x04, 0x03, 0x02, 0x01]);
}

#[test]
fn reading_past_the_end_is_an_error_not_a_panic() {
    let mut r = BufferReader::new(vec![1, 2]);
    assert_eq!(r.get_u32(), Err(BufferReaderError::EndOfBuffer));
    // The failed read leaves the position unchanged.
    assert_eq!(r.get_counter(), 0);
    assert_eq!(r.get_u16().unwrap(), 0x0201);
    assert_eq!(r.get_u8(), Err(BufferReaderError::EndOfBuffer));
}

#[test]
fn var_bytes_round_trips() {
    let blob: Vec<u8> = (0u8..50).collect();
    let mut w = BufferWriter::new();
    w.put_var_bytes(blob.as_slice());
    let mut r = BufferReader::new(w.get_bytes());
    assert_eq!(r.get_var_bytes().unwrap(), blob);
}

#[test]
fn writer_snapshot_does_not_alias_the_buffer() {
    let mut w = BufferWriter::new();
    w.put_u8(1);
    let snapshot = w.get_bytes();
    let mut w2 = w.clone();
    w2.put_u8(2);
    w.put_u8(3);
    assert_eq!(snapshot, vec![1]);
    assert_eq!(w.get_bytes(), vec![1, 3]);
    assert_eq!(w2.get_bytes(), vec![1, 2]);
}

#[test]
fn hash_blocks_are_raw_thirty_two_bytes() {
    let h = maincore::hash::Hash::new([7u8; 32]);
    let mut w = BufferWriter::new();
    w.put_hash(&h);
    assert_eq!(w.get_bytes().len(), 32);
    let mut r = BufferReader::new(w.get_bytes());
    let back = r.get_hash().unwrap();
    assert!(back.is_eq(&h));
}

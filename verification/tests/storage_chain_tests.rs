//! The store's index bookkeeping and filename arithmetic, the block round
//! trip, the orchestrator's cache, the append sequence, and the retarget.

use maincore::mainblock::Mainblock;
use maincore::mainblock::unserialize_mainblock;
use maincore::maincore_inner::MaincoreInner;
use maincore::maincore_inner::MaincoreInnerError;
use maincore::mainheader::Mainheader;
use maincore::storage_directory::StorageDirectory;
use maincore::storage_directory::parse_file_index;
use maincore::storage_directory::usize_to_dec;

fn header_with(timestamp: i64, bits: u32) -> Mainheader {
    let prev = maincore::hash::Hash::new([1u8; 32]);
    let root = maincore::hash::Hash::new([2u8; 32]);
    let draft = Mainheader::new(
        1,
        prev.clone(),
        root.clone(),
        timestamp,
        bits,
        0,
        maincore::hash::Hash::new_empty(),
    );
    let hash = draft.compute_hash();
    Mainheader::new(1, prev, root, timestamp, bits, 0, hash)
}

fn block_with(timestamp: i64, bits: u32) -> Mainblock {
    Mainblock::new(header_with(timestamp, bits), vec![])
}

#[test]
fn decimal_filenames() {
    assert_eq!(usize_to_dec(0), b"0".to_vec());
    assert_eq!(usize_to_dec(7), b"7".to_vec());
    assert_eq!(usize_to_dec(10), b"10".to_vec());
    assert_eq!(usize_to_dec(90210), b"90210".to_vec());
    let sd = StorageDirectory::new(b"Mainblock".to_vec());
    assert_eq!(sd.chunk_filename(0), b"Mainblock0".to_vec());
    assert_eq!(sd.chunk_filename(123), b"Mainblock123".to_vec());
}

#[test]
fn parse_file_index_accepts_category_plus_digits() {
    let cat = b"Mainblock".to_vec();
    assert_eq!(parse_file_index(&cat, &b"Mainblock0".to_vec()), Some(0));
    assert_eq!(parse_file_index(&cat, &b"Mainblock41".to_vec()), Some(41));
    assert_eq!(parse_file_index(&cat, &b"Mainblock007".to_vec()), Some(7));
    assert_eq!(parse_file_index(&cat, &b"Mainblock".to_vec()), None);
    assert_eq!(parse_file_index(&cat, &b"Mainblock4a".to_vec()), None);
    assert_eq!(parse_file_index(&cat, &b"Other12".to_vec()), None);
    assert_eq!(
        parse_file_index(&cat, &b"Mainblock99999999999999999999999999".to_vec()),
        None,
    );
}

#[test]
fn directory_scan_recovers_the_greatest_index() {
    let mut sd = StorageDirectory::new(b"Mainblock".to_vec());
    assert_eq!(sd.get_storage_files_last_index(), None);
    let names = vec![
        b"Mainblock2".to_vec(),
        b"notes.txt".to_vec(),
        b"Mainblock0".to_vec(),
        b"Mainblock17".to_vec(),
        b"Mainblock9".to_vec(),
    ];
    sd.init_storage_files_last_index(&names);
    assert_eq!(sd.get_storage_files_last_index(), Some(17));

    let mut empty = StorageDirectory::new(b"Mainblock".to_vec());
    empty.init_storage_files_last_index(&vec![b"unrelated".to_vec()]);
    assert_eq!(empty.get_storage_files_last_index(), None);
}

#[test]
fn appends_write_at_the_count_then_advance_it() {
    let mut sd = StorageDirectory::new(b"Mainblock".to_vec());
    let mut seen = Vec::new();
    for expected in 0..4usize {
        assert_eq!(sd.get_count(), expected);
        let name = sd.next_chunk_filename();
        assert_eq!(name, sd.chunk_filename(expected));
        assert!(!seen.contains(&name));
        seen.push(name);
        sd.confirm_append();
    }
    assert_eq!(sd.get_count(), 4);
    assert_eq!(sd.get_storage_files_last_index(), Some(3));
}

#[test]
fn block_serialization_round_trips() {
    let tx = maincore::maintx::new_reward_transaction(
        5,
        1000,
        10,
        maincore::hash::Hash::new([3u8; 32]),
    );
    let block = Mainblock::new(header_with(1_700_000_000, 0x1D00_FFFF), vec![tx]);
    let bytes = block.serialize();
    let back = unserialize_mainblock(bytes).unwrap();
    assert!(back.get_hash().is_eq(&block.get_hash()));
    assert_eq!(back.transactions.len(), 1);
    assert_eq!(
        back.transactions[0].serialize_transaction(),
        block.transactions[0].serialize_transaction(),
    );
    assert!(back.check_hash());
}

#[test]
fn unserialize_block_fails_atomically_on_a_bad_transaction() {
    let tx = maincore::maintx::new_reward_transaction(
        5,
        1000,
        10,
        maincore::hash::Hash::new([3u8; 32]),
    );
    let block = Mainblock::new(header_with(1_700_000_000, 0x1D00_FFFF), vec![tx]);
    let mut bytes = block.serialize();
    let n = bytes.len();
    // Corrupt the last transaction segment's variant tag region.
    bytes[n - 1] ^= 0xFF;
    bytes.truncate(n - 1);
    assert!(unserialize_mainblock(bytes).is_err());
}

#[test]
fn orchestrator_counts_and_cache_reads() {
    let mut core = MaincoreInner::new(b"Mainblock".to_vec(), 6);
    assert_eq!(core.get_mainblocks_count(), 0);
    assert!(matches!(
        core.get_last_inmem_mainheader(),
        Err(MaincoreInnerError::EmptyChain),
    ));
    assert!(matches!(
        core.get_inmem_mainheader(0),
        Err(MaincoreInnerError::UnknownHeight),
    ));

    let b0 = block_with(100, 0x1E12_3456);
    let b1 = block_with(400, 0x1E12_3456);
    let (name0, bytes0) = core.prepare_block_append(&b0);
    assert_eq!(name0, b"Mainblock0".to_vec());
    assert_eq!(bytes0, b0.serialize());
    core.commit_confirmed_mainblock(&b0);
    let (name1, _) = core.prepare_block_append(&b1);
    assert_eq!(name1, b"Mainblock1".to_vec());
    core.commit_confirmed_mainblock(&b1);

    assert_eq!(core.get_mainblocks_count(), 2);
    assert_eq!(core.get_inmem_mainheader(0).unwrap().get_timestamp(), 100);
    assert_eq!(core.get_inmem_mainheader(1).unwrap().get_timestamp(), 400);
    assert_eq!(core.get_last_inmem_mainheader().unwrap().get_timestamp(), 400);
    assert!(core.get_inmem_mainheader(2).is_err());
}

#[test]
fn load_replays_serialized_blocks_into_the_cache() {
    let mut core = MaincoreInner::new(b"Mainblock".to_vec(), 6);
    let blocks = vec![block_with(10, 0x1E00_0001), block_with(20, 0x1E00_0001)];
    for b in blocks.iter() {
        core.load_mainheader_step(b.serialize()).unwrap();
    }
    assert_eq!(core.get_inmem_mainheader(0).unwrap().get_timestamp(), 10);
    assert_eq!(core.get_inmem_mainheader(1).unwrap().get_timestamp(), 20);
    // A corrupt chunk fails the step and leaves the cache as it was.
    assert!(core.load_mainheader_step(vec![0xFF, 0xEE]).is_err());
    assert!(core.get_inmem_mainheader(2).is_err());
}

#[test]
fn newbits_away_from_a_boundary_keeps_the_previous_bits() {
    let mut core = MaincoreInner::new(b"Mainblock".to_vec(), 6);
    core.commit_confirmed_mainblock(&block_with(100, 0x1E12_3456));
    assert_eq!(core.get_newbits().unwrap(), 0x1E12_3456);
}

fn chain_of_one_interval(spacing: i64, bits: u32) -> MaincoreInner {
    let mut core = MaincoreInner::new(b"Mainblock".to_vec(), 6);
    for i in 0..4032i64 {
        core.commit_confirmed_mainblock(&Mainblock::new(
            header_with(1_000_000 + i * spacing, bits),
            vec![],
        ));
    }
    core
}

#[test]
fn retarget_with_ideal_spacing_keeps_the_bits() {
    let core = chain_of_one_interval(300, 0x1E12_3456);
    assert_eq!(core.get_newbits().unwrap(), 0x1E12_3456);
}

#[test]
fn retarget_with_doubled_spacing_doubles_the_target() {
    let core = chain_of_one_interval(600, 0x1E12_3456);
    // Twice 0x123456 * 256^27 is 0x2468AC * 256^27: same exponent, doubled
    // mantissa.
    assert_eq!(core.get_newbits().unwrap(), 0x1E24_68AC);
}

#[test]
fn retarget_with_halved_spacing_halves_the_target() {
    let core = chain_of_one_interval(150, 0x1E24_68AC);
    assert_eq!(core.get_newbits().unwrap(), 0x1E12_3456);
}

#[test]
fn retarget_overflowing_the_compact_form_is_an_error() {
    // A target near the widest exponent, scaled up by huge timestamp
    // deltas, no longer fits the compact form's 8-bit exponent.
    let core = chain_of_one_interval(1 << 40, 0xFEFF_FFFF);
    assert!(matches!(core.get_newbits(), Err(MaincoreInnerError::TargetOverflow)));
}

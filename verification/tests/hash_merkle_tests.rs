//! The digest type against the SHA3-256 reference, and the Merkle
//! reduction's small shapes.

use sha3::Digest;

fn sha3_reference(data: &[u8]) -> Vec<u8> {
    sha3::Sha3_256::digest(data).to_vec()
}

#[test]
fn compute_hash_matches_sha3_reference() {
    for data in [&b""[..], &b"abc"[..], &[0u8; 100][..]] {
        let h = maincore::hash::Hash::compute_hash(data);
        assert_eq!(h.to_vec(), sha3_reference(data));
    }
}

#[test]
fn compute_hash_of_empty_input_is_the_known_vector() {
    let h = maincore::hash::Hash::compute_hash(&[]);
    assert_eq!(
        h.to_hex_string(),
        "a7ffc6f8bf1ed76651c14756a061d662f580ff4de43b49fa82d80a4b80f8434a",
    );
}

#[test]
fn hash_from_bytes_accepts_exactly_thirty_two() {
    assert!(maincore::hash::Hash::from_bytes(&[1u8; 32]).is_ok());
    assert!(maincore::hash::Hash::from_bytes(&[1u8; 31]).is_err());
    assert!(maincore::hash::Hash::from_bytes(&[1u8; 33]).is_err());
    assert!(maincore::hash::Hash::from_bytes(&[]).is_err());
}

#[test]
fn hash_equality_is_byte_wise() {
    let a = maincore::hash::Hash::new([5u8; 32]);
    let b = maincore::hash::Hash::new([5u8; 32]);
    let mut other = [5u8; 32];
    other[31] = 6;
    let c = maincore::hash::Hash::new(other);
    assert!(a.is_eq(&b));
    assert!(a == b);
    assert!(!a.is_eq(&c));
    assert!(a != c);
}

#[test]
fn new_empty_is_all_zero() {
    let z = maincore::hash::Hash::new_empty();
    assert_eq!(z.to_vec(), vec![0u8; 32]);
    assert_eq!(
        z.to_hex_string(),
        "0000000000000000000000000000000000000000000000000000000000000000",
    );
}

#[test]
fn merkle_root_of_empty_is_zero_hash() {
    let root = maincore::merkle::compute_root(&[]);
    assert!(root.is_eq(&maincore::hash::Hash::new_empty()));
}

#[test]
fn merkle_root_of_single_is_the_element() {
    let a = maincore::hash::Hash::new([1u8; 32]);
    let root = maincore::merkle::compute_root(&[a.clone()]);
    assert!(root.is_eq(&a));
}

#[test]
fn merkle_root_of_pair_is_hash_of_concatenation() {
    let a = maincore::hash::Hash::new([1u8; 32]);
    let b = maincore::hash::Hash::new([2u8; 32]);
    let root = maincore::merkle::compute_root(&[a.clone(), b.clone()]);
    let mut concat = a.to_vec();
    concat.extend_from_slice(&b.to_vec());
    assert_eq!(root.to_vec(), sha3_reference(&concat));
}

#[test]
fn merkle_root_of_triple_duplicates_the_last_element() {
    let a = maincore::hash::Hash::new([1u8; 32]);
    let b = maincore::hash::Hash::new([2u8; 32]);
    let c = maincore::hash::Hash::new([3u8; 32]);
    let root = maincore::merkle::compute_root(&[a.clone(), b.clone(), c.clone()]);

    let mut ab = a.to_vec();
    ab.extend_from_slice(&b.to_vec());
    let h_ab = sha3_reference(&ab);
    let mut cc = c.to_vec();
    cc.extend_from_slice(&c.to_vec());
    let h_cc = sha3_reference(&cc);
    let mut top = h_ab.clone();
    top.extend_from_slice(&h_cc);
    assert_eq!(root.to_vec(), sha3_reference(&top));
}

#[test]
fn merkle_root_of_five_carries_the_odd_tail_at_every_level() {
    let leaves: Vec<maincore::hash::Hash> =
        (0u8..5).map(|i| maincore::hash::Hash::new([i; 32])).collect();
    let root = maincore::merkle::compute_root(&leaves);

    // Reference reduction with the same duplication rule.
    let mut level: Vec<Vec<u8>> = leaves.iter().map(|h| h.to_vec()).collect();
    while level.len() > 1 {
        let mut next = Vec::new();
        let mut i = 0;
        while i < level.len() {
            let left = &level[i];
            let right = if i + 1 < level.len() { &level[i + 1] } else { &level[i] };
            let mut concat = left.clone();
            concat.extend_from_slice(right);
            next.push(sha3_reference(&concat));
            i += 2;
        }
        level = next;
    }
    assert_eq!(root.to_vec(), level[0]);
}

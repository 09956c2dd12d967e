//! Transactions: wire round trips of both input variants and the output,
//! the signing hash's independence from signature bytes, reward-transaction
//! construction, and signature verification against the secp256k1 curve.

use maincore::maintx::Maintx;
use maincore::maintx::new_reward_transaction;
use maincore::maintx_in::MaintxIn;
use maincore::maintx_in::MaintxInEcdsa;
use maincore::maintx_in::new_mainblockrewardtxin;
use maincore::maintx_in::new_maintx_in_ecdsa;
use maincore::maintx_out::MaintxOut;
use maincore::maintx_out::new_ecdsa_maintxout;

fn keypair() -> (secp256k1::SecretKey, secp256k1::PublicKey) {
    let sk = secp256k1::SecretKey::from_byte_array([7u8; 32]).unwrap();
    let pk = secp256k1::PublicKey::from_secret_key(&sk);
    (sk, pk)
}

fn sample_ecdsa_tx(signature: Vec<u8>, publickey: Vec<u8>) -> Maintx {
    let mut input = new_maintx_in_ecdsa(maincore::hash::Hash::new([9u8; 32]), 2, publickey);
    input.as_ecdsa_mut().unwrap().set_signature(signature);
    Maintx {
        version: 1,
        vin: vec![input],
        vout: vec![new_ecdsa_maintxout(5000, maincore::hash::Hash::new([4u8; 32]))],
    }
}

fn assert_txs_equal(a: &Maintx, b: &Maintx) {
    assert_eq!(a.version, b.version);
    assert_eq!(a.vin.len(), b.vin.len());
    assert_eq!(a.vout.len(), b.vout.len());
    assert_eq!(a.serialize_transaction(), b.serialize_transaction());
}

#[test]
fn reward_transaction_round_trips() {
    let tx = new_reward_transaction(31, 5_000_000, 250, maincore::hash::Hash::new([8u8; 32]));
    let back = Maintx::unserialize_maintx(tx.serialize_transaction()).unwrap();
    assert_txs_equal(&tx, &back);
    match &back.vin[0] {
        MaintxIn::MaintxInMainBlockRewardVariant(r) => assert_eq!(r.mainblock_height, 31),
        MaintxIn::MaintxInEcdsaVariant(_) => panic!("expected a reward input"),
    }
    assert_eq!(back.vout[0].get_value().unwrap(), 5_000_250);
    assert!(back.vout[0]
        .get_address()
        .unwrap()
        .is_eq(&maincore::hash::Hash::new([8u8; 32])));
}

#[test]
fn ecdsa_transaction_round_trips_with_signature_bytes() {
    let tx = sample_ecdsa_tx(vec![0xCD; 64], vec![0xAB; 33]);
    let bytes = tx.serialize_transaction();
    let back = Maintx::unserialize_maintx(bytes).unwrap();
    assert_txs_equal(&tx, &back);
    let input = back.vin[0].as_ecdsa().unwrap();
    assert!(input.hash.is_eq(&maincore::hash::Hash::new([9u8; 32])));
    assert_eq!(input.index, 2);
    assert_eq!(input.publickey, vec![0xAB; 33]);
    assert_eq!(input.signature, vec![0xCD; 64]);
}

#[test]
fn unserialize_tx_rejects_unknown_input_tag() {
    let tx = sample_ecdsa_tx(vec![], vec![]);
    let mut bytes = tx.serialize_transaction();
    // The input tag follows the version and the input count, one varint
    // byte each here.
    bytes[2] = 9;
    assert!(Maintx::unserialize_maintx(bytes).is_err());
}

#[test]
fn signing_hash_is_independent_of_signature_bytes() {
    let with_one = sample_ecdsa_tx(vec![0x11; 64], vec![0xAB; 33]);
    let with_other = sample_ecdsa_tx(vec![0x22; 70], vec![0xAB; 33]);
    assert!(with_one.compute_hash().is_eq(&with_other.compute_hash()));
    // The wire bytes do differ: only the signing form ignores signatures.
    assert_ne!(with_one.serialize_transaction(), with_other.serialize_transaction());
    // A change to any signed field moves the signing hash.
    let other_key = sample_ecdsa_tx(vec![0x11; 64], vec![0xAC; 33]);
    assert!(!with_one.compute_hash().is_eq(&other_key.compute_hash()));
}

#[test]
fn serialization_size_is_the_wire_length() {
    let tx = sample_ecdsa_tx(vec![0xCD; 64], vec![0xAB; 33]);
    assert_eq!(tx.get_serialization_size(), tx.serialize_transaction().len());
}

#[test]
fn verify_signatures_accepts_a_valid_signature() {
    let (sk, pk) = keypair();
    let mut tx = sample_ecdsa_tx(vec![], pk.serialize().to_vec());
    let signing_hash = tx.compute_hash();
    let digest: [u8; 32] = signing_hash.to_vec().try_into().unwrap();
    let msg = secp256k1::Message::from_digest(digest);
    let sig = secp256k1::ecdsa::sign(msg, &sk);
    tx.vin[0]
        .as_ecdsa_mut()
        .unwrap()
        .set_signature(sig.serialize_compact().to_vec());
    assert!(tx.verify_signatures());
}

#[test]
fn verify_signatures_rejects_a_wrong_signature() {
    let (sk, pk) = keypair();
    let mut tx = sample_ecdsa_tx(vec![], pk.serialize().to_vec());
    // Sign a different message.
    let msg = secp256k1::Message::from_digest([0x55u8; 32]);
    let sig = secp256k1::ecdsa::sign(msg, &sk);
    tx.vin[0]
        .as_ecdsa_mut()
        .unwrap()
        .set_signature(sig.serialize_compact().to_vec());
    assert!(!tx.verify_signatures());
}

#[test]
fn verify_signatures_treats_malformed_bytes_as_failure() {
    // Neither the key nor the signature parses: the check fails, it does
    // not panic.
    let tx = sample_ecdsa_tx(vec![1, 2, 3], vec![4, 5, 6]);
    assert!(!tx.verify_signatures());
}

#[test]
fn verify_signatures_accepts_reward_only_transactions() {
    let tx = new_reward_transaction(0, 100, 0, maincore::hash::Hash::new([1u8; 32]));
    assert!(tx.verify_signatures());
}

#[test]
fn input_accessors_distinguish_the_variants() {
    let reward = new_mainblockrewardtxin(3);
    assert!(!reward.is_ecdsa());
    assert!(reward.as_ecdsa().is_err());
    assert!(!reward.verify_ecdsa_signature(maincore::hash::Hash::new_empty()));

    let ecdsa = new_maintx_in_ecdsa(maincore::hash::Hash::new([1u8; 32]), 0, vec![2u8; 33]);
    assert!(ecdsa.is_ecdsa());
    assert!(ecdsa.as_ecdsa().is_ok());
}

#[test]
fn output_accessors_and_address_matching() {
    let addr = maincore::hash::Hash::new([6u8; 32]);
    let out: MaintxOut = new_ecdsa_maintxout(777, addr.clone());
    assert!(out.is_ecdsa());
    assert!(out.matches_address(&addr));
    assert!(!out.matches_address(&maincore::hash::Hash::new([7u8; 32])));
    assert_eq!(out.get_value().unwrap(), 777);
    assert!(out.get_address().unwrap().is_eq(&addr));
}

#[test]
fn ecdsa_input_check_signature_forwards_the_curve_verdict() {
    let (sk, pk) = keypair();
    let digest = [0x31u8; 32];
    let msg = secp256k1::Message::from_digest(digest);
    let sig = secp256k1::ecdsa::sign(msg, &sk);
    let input = MaintxInEcdsa {
        hash: maincore::hash::Hash::new([0u8; 32]),
        index: 0,
        publickey: pk.serialize().to_vec(),
        signature: sig.serialize_compact().to_vec(),
    };
    assert!(input.check_signature(maincore::hash::Hash::new(digest)));
    assert!(!input.check_signature(maincore::hash::Hash::new([0x32u8; 32])));
}

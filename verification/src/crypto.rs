//! The ECDSA verification boundary: signature checking over the secp256k1
//! curve, trusted to the secp256k1 crate. Whether a key parses, whether a
//! signature parses, and whether a signature verifies are each functions of
//! the bytes alone; the library states nothing further about them.

use vstd::prelude::*;

verus! {

/// Whether `PublicKey::from_slice` accepts the bytes: 33 or 65 bytes that
/// encode a point on the curve.
pub uninterp spec fn secp_pubkey_ok(public_key: Seq<u8>) -> bool;

/// Whether `ecdsa::Signature::from_compact` accepts the bytes: exactly 64
/// bytes that encode a valid signature.
pub uninterp spec fn secp_signature_ok(signature: Seq<u8>) -> bool;

/// Whether `ecdsa::verify` accepts the signature for the 32-byte message
/// digest under the public key.
pub uninterp spec fn secp_ecdsa_verifies(
    public_key: Seq<u8>,
    message: Seq<u8>,
    signature: Seq<u8>,
) -> bool;

/// Errors of the keypair and signature operations.
#[derive(Debug, Clone, Copy, PartialEq, Eq, Structural)]
pub enum EcdsaKeySetError {
    /// The secret key bytes do not parse.
    SecretKeyParseError,
    /// The public key bytes do not parse.
    PublicKeyParseError,
    /// The message digest is not exactly 32 bytes.
    MessageCreationError,
    /// The compact signature bytes do not parse.
    SignatureCreationError,
}

/// Relies on secp256k1: `PublicKey::from_slice` and `ecdsa::Signature::
/// from_compact` each accept or reject their bytes deterministically,
/// `Message::from_digest` takes any 32-byte digest, and `ecdsa::verify`
/// decides the triple from its arguments alone.
#[verifier::external_body]
fn secp_verify_raw(public_key: &[u8], message_hash: &[u8], signature: &[u8]) -> (r: Result<
    bool,
    EcdsaKeySetError,
>)
    requires
        message_hash@.len() == 32,
    ensures
        (r is Ok) == (secp_pubkey_ok(public_key@) && secp_signature_ok(signature@)),
        r matches Ok(b) ==> b == secp_ecdsa_verifies(public_key@, message_hash@, signature@),
        r matches Err(e) ==> (e is PublicKeyParseError <==> !secp_pubkey_ok(public_key@)),
        r matches Err(e) ==> (e is SignatureCreationError <==> secp_pubkey_ok(public_key@)),
{
    let pk = match secp256k1::PublicKey::from_slice(public_key) {
        Ok(k) => k,
        Err(_) => return Err(EcdsaKeySetError::PublicKeyParseError),
    };
    let sig = match secp256k1::ecdsa::Signature::from_compact(signature) {
        Ok(s) => s,
        Err(_) => return Err(EcdsaKeySetError::SignatureCreationError),
    };
    let msg = match <[u8; 32]>::try_from(message_hash) {
        Ok(digest) => secp256k1::Message::from_digest(digest),
        Err(_) => return Err(EcdsaKeySetError::MessageCreationError),
    };
    Ok(secp256k1::ecdsa::verify(&sig, msg, &pk).is_ok())
}

/// Verifies a compact signature over a message hash under a public key.
/// Succeeds exactly when both the key and the signature parse; the boolean
/// is the curve's own verdict.
pub fn verify_signature(
    public_key_bytes: &[u8],
    message_hash: &crate::hash::Hash,
    compact_signature: &[u8],
) -> (r: Result<bool, EcdsaKeySetError>)
    ensures
        r is Ok <==> secp_pubkey_ok(public_key_bytes@) && secp_signature_ok(compact_signature@),
        r matches Ok(b) ==> b == secp_ecdsa_verifies(
            public_key_bytes@,
            message_hash@,
            compact_signature@,
        ),
        r matches Err(e) ==> (e is PublicKeyParseError <==> !secp_pubkey_ok(public_key_bytes@)),
        r matches Err(e) ==> (e is SignatureCreationError <==> secp_pubkey_ok(public_key_bytes@)),
{
    proof {
        use_type_invariant(message_hash);
        message_hash.lemma_wf_len();
    }
    let digest = message_hash.to_vec();
    secp_verify_raw(public_key_bytes, digest.as_slice(), compact_signature)
}

/// The verdict of `verify_signature` collapsed to a boolean: a parse failure
/// of the key or the signature counts as a failed check.
pub open spec fn signature_passes(
    public_key: Seq<u8>,
    message: Seq<u8>,
    signature: Seq<u8>,
) -> bool {
    &&& secp_pubkey_ok(public_key)
    &&& secp_signature_ok(signature)
    &&& secp_ecdsa_verifies(public_key, message, signature)
}

} // verus!

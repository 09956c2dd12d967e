//! Transaction inputs: a block-reward input that mints value at a height, or
//! an ECDSA input that spends a prior output and is authorized by a
//! signature over the transaction's signing hash.

use vstd::prelude::*;

verus! {

use crate::codec::BufferWriter;
use crate::codec::BufferReader;
use crate::codec::BufferReaderError;
use crate::codec::spec_varint_bytes;
use crate::codec::spec_var_bytes;
use crate::codec::parse_u32;
use crate::codec::parse_varint;
use crate::codec::parse_varint32;
use crate::codec::parse_var_bytes;
use crate::codec::parse_hash;
use crate::codec::clone_bytes;
use crate::crypto::signature_passes;
use vstd::bytes::spec_u32_to_le_bytes;

/// Variant tag of a block-reward input on the wire.
pub const MAINTX_IN_IDENTIFIER_MAINBLOCK_REWARD: u32 = 0;

/// Variant tag of an ECDSA input on the wire.
pub const MAINTX_IN_IDENTIFIER_ECDSA: u32 = 1;

/// A coinbase-like input minting value, tagged with the block height.
pub struct MaintxInMainBlockReward {
    pub mainblock_height: u32,
}

/// An input spending the output `index` of the transaction `hash`,
/// authorized by `signature` under `publickey`.
pub struct MaintxInEcdsa {
    pub hash: crate::hash::Hash,
    pub index: u32,
    pub publickey: Vec<u8>,
    pub signature: Vec<u8>,
}

/// A transaction input: a closed sum of the two variants.
pub enum MaintxIn {
    MaintxInMainBlockRewardVariant(MaintxInMainBlockReward),
    MaintxInEcdsaVariant(MaintxInEcdsa),
}

/// The mathematical value of a block-reward input.
pub ghost struct TxInRewardView {
    pub mainblock_height: u32,
}

/// The mathematical value of an ECDSA input.
pub ghost struct TxInEcdsaView {
    pub hash: Seq<u8>,
    pub index: u32,
    pub publickey: Seq<u8>,
    pub signature: Seq<u8>,
}

/// The mathematical value of a transaction input.
pub ghost enum TxInView {
    Reward(TxInRewardView),
    Ecdsa(TxInEcdsaView),
}

impl View for MaintxInMainBlockReward {
    type V = TxInRewardView;

    open spec fn view(&self) -> TxInRewardView {
        TxInRewardView { mainblock_height: self.mainblock_height }
    }
}

impl View for MaintxInEcdsa {
    type V = TxInEcdsaView;

    open spec fn view(&self) -> TxInEcdsaView {
        TxInEcdsaView {
            hash: self.hash@,
            index: self.index,
            publickey: self.publickey@,
            signature: self.signature@,
        }
    }
}

impl View for MaintxIn {
    type V = TxInView;

    open spec fn view(&self) -> TxInView {
        match self {
            MaintxIn::MaintxInMainBlockRewardVariant(r) => TxInView::Reward(r@),
            MaintxIn::MaintxInEcdsaVariant(e) => TxInView::Ecdsa(e@),
        }
    }
}

/// Well-formedness of an input value: the referenced hash is 32 bytes and
/// the key and signature blobs fit their 32-bit length prefixes.
pub open spec fn txin_wf(t: TxInView) -> bool {
    match t {
        TxInView::Reward(_) => true,
        TxInView::Ecdsa(e) => {
            &&& e.hash.len() == 32
            &&& e.publickey.len() <= u32::MAX
            &&& e.signature.len() <= u32::MAX
        },
    }
}

/// The wire bytes of an input. With `signing` false the signature blob of an
/// ECDSA input is omitted: that is the form the signing hash is computed
/// over. A reward input has no signature either way. Each variant ends with
/// a reserved zero-length extension field.
pub open spec fn spec_txin_bytes(t: TxInView, signing: bool) -> Seq<u8> {
    match t {
        TxInView::Reward(r) => spec_varint_bytes(MAINTX_IN_IDENTIFIER_MAINBLOCK_REWARD as u64)
            + spec_u32_to_le_bytes(r.mainblock_height),
        TxInView::Ecdsa(e) => spec_varint_bytes(MAINTX_IN_IDENTIFIER_ECDSA as u64)
            + e.hash
            + spec_varint_bytes(e.index as u64)
            + spec_var_bytes(e.publickey)
            + (if signing { spec_var_bytes(e.signature) } else { Seq::<u8>::empty() })
            + spec_varint_bytes(0),
    }
}

/// Parses one input from position `i`: the variant tag, then the variant's
/// payload, then the reserved extension field (whose value is not checked).
/// The signature blob is always present in the parsed form.
pub open spec fn parse_txin(s: Seq<u8>, i: int) -> Option<(TxInView, int)> {
    match parse_varint32(s, i) {
        None => None,
        Some((tag, j)) => {
            if tag == MAINTX_IN_IDENTIFIER_ECDSA {
                match parse_hash(s, j) {
                    None => None,
                    Some((hash, j1)) => match parse_varint32(s, j1) {
                        None => None,
                        Some((index, j2)) => match parse_var_bytes(s, j2) {
                            None => None,
                            Some((publickey, j3)) => match parse_var_bytes(s, j3) {
                                None => None,
                                Some((signature, j4)) => match parse_varint(s, j4) {
                                    None => None,
                                    Some((_, j5)) => Some((
                                        TxInView::Ecdsa(TxInEcdsaView {
                                            hash,
                                            index,
                                            publickey,
                                            signature,
                                        }),
                                        j5,
                                    )),
                                },
                            },
                        },
                    },
                }
            } else if tag == MAINTX_IN_IDENTIFIER_MAINBLOCK_REWARD {
                match parse_u32(s, j) {
                    None => None,
                    Some((mainblock_height, j1)) => Some((
                        TxInView::Reward(TxInRewardView { mainblock_height }),
                        j1,
                    )),
                }
            } else {
                None
            }
        },
    }
}

/// Errors of the transaction-input module.
#[derive(Debug, Clone, Copy, PartialEq, Eq, Structural)]
pub enum MaintxInError {
    /// An ECDSA input was expected but a block-reward input stood there.
    NotEcdsaVariant,
    /// The variant tag is neither of the two known ones.
    UnknownIdentifier(u32),
    /// The underlying read failed.
    BufferReaderError(BufferReaderError),
}

impl MaintxInMainBlockReward {
    /// Appends the wire bytes of this reward input.
    pub fn serialize(&self, writer: &mut BufferWriter)
        ensures
            final(writer)@ == old(writer)@ + spec_txin_bytes(TxInView::Reward(self@), true),
            final(writer)@ == old(writer)@ + spec_txin_bytes(TxInView::Reward(self@), false),
    {
        writer.put_var_u32(MAINTX_IN_IDENTIFIER_MAINBLOCK_REWARD);
        writer.put_u32(self.mainblock_height);
        proof {
            assert(final(writer)@ =~= old(writer)@
                + spec_txin_bytes(TxInView::Reward(self@), true));
        }
    }
}

impl MaintxInEcdsa {
    /// Appends the wire bytes of this ECDSA input; with `signing` false the
    /// signature blob is left out, which is the form signatures are computed
    /// over.
    pub fn serialize(&self, writer: &mut BufferWriter, signing: bool)
        requires
            txin_wf(TxInView::Ecdsa(self@)),
        ensures
            final(writer)@ == old(writer)@ + spec_txin_bytes(TxInView::Ecdsa(self@), signing),
    {
        writer.put_var_u32(MAINTX_IN_IDENTIFIER_ECDSA);
        writer.put_hash(&self.hash);
        writer.put_var_u32(self.index);
        writer.put_var_bytes(self.publickey.as_slice());
        if signing {
            writer.put_var_bytes(self.signature.as_slice());
        }
        writer.put_var_u64(0);
        proof {
            assert(final(writer)@ =~= old(writer)@
                + spec_txin_bytes(TxInView::Ecdsa(self@), signing));
        }
    }

    /// Checks the embedded signature against a signing hash: the key and the
    /// signature must parse and the curve must accept the triple. A parse
    /// failure reports as a failed check.
    pub fn check_signature(&self, hash: crate::hash::Hash) -> (r: bool)
        ensures
            r == signature_passes(self.publickey@, hash@, self.signature@),
    {
        match crate::crypto::verify_signature(
            self.publickey.as_slice(),
            &hash,
            self.signature.as_slice(),
        ) {
            Ok(value) => value,
            Err(_) => false,
        }
    }

    /// Replaces the signature blob.
    pub fn set_signature(&mut self, signature: Vec<u8>)
        ensures
            final(self)@ == (TxInEcdsaView { signature: signature@, ..old(self)@ }),
    {
        self.signature = signature;
    }
}

impl MaintxIn {
    /// Appends the wire bytes of this input.
    pub fn serialize(&self, writer: &mut BufferWriter, signing: bool)
        requires
            txin_wf(self@),
        ensures
            final(writer)@ == old(writer)@ + spec_txin_bytes(self@, signing),
    {
        match self {
            MaintxIn::MaintxInMainBlockRewardVariant(txinmainblockreward) => {
                txinmainblockreward.serialize(writer)
            },
            MaintxIn::MaintxInEcdsaVariant(txinecdsa) => txinecdsa.serialize(writer, signing),
        }
    }

    /// Whether this input is the ECDSA variant.
    pub fn is_ecdsa(&self) -> (r: bool)
        ensures
            r == (self@ is Ecdsa),
    {
        matches!(self, MaintxIn::MaintxInEcdsaVariant(_))
    }

    /// Checks an ECDSA input's signature against a signing hash; a
    /// block-reward input fails (it has nothing to verify here).
    pub fn verify_ecdsa_signature(&self, hash: crate::hash::Hash) -> (r: bool)
        ensures
            r == match self@ {
                TxInView::Ecdsa(e) => signature_passes(e.publickey, hash@, e.signature),
                TxInView::Reward(_) => false,
            },
    {
        if let MaintxIn::MaintxInEcdsaVariant(txin) = self {
            txin.check_signature(hash)
        } else {
            false
        }
    }

    /// The ECDSA payload of this input, or an error for a reward input.
    pub fn as_ecdsa(&self) -> (r: Result<&MaintxInEcdsa, MaintxInError>)
        ensures
            match r {
                Ok(e) => self@ == TxInView::Ecdsa(e@),
                Err(err) => self@ is Reward && err is NotEcdsaVariant,
            },
    {
        if let MaintxIn::MaintxInEcdsaVariant(txin) = self {
            Ok(txin)
        } else {
            Err(MaintxInError::NotEcdsaVariant)
        }
    }

    /// The ECDSA payload of this input for updating, or an error for a
    /// reward input.
    pub fn as_ecdsa_mut(&mut self) -> (r: Result<&mut MaintxInEcdsa, MaintxInError>)
        ensures
            match r {
                Ok(e) => {
                    &&& old(self)@ == TxInView::Ecdsa((*e)@)
                    &&& final(self)@ == TxInView::Ecdsa((*final(e))@)
                },
                Err(err) => {
                    &&& old(self)@ is Reward
                    &&& final(self)@ == old(self)@
                    &&& err is NotEcdsaVariant
                },
            },
    {
        if let MaintxIn::MaintxInEcdsaVariant(txin) = self {
            Ok(txin)
        } else {
            Err(MaintxInError::NotEcdsaVariant)
        }
    }
}

impl Clone for MaintxInEcdsa {
    /// The clone holds the same mathematical value.
    fn clone(&self) -> (r: Self)
        ensures
            r@ == self@,
    {
        MaintxInEcdsa {
            hash: self.hash.clone(),
            index: self.index,
            publickey: clone_bytes(&self.publickey),
            signature: clone_bytes(&self.signature),
        }
    }
}

impl Clone for MaintxIn {
    /// The clone holds the same mathematical value.
    fn clone(&self) -> (r: Self)
        ensures
            r@ == self@,
    {
        match self {
            MaintxIn::MaintxInMainBlockRewardVariant(txin) => {
                MaintxIn::MaintxInMainBlockRewardVariant(MaintxInMainBlockReward {
                    mainblock_height: txin.mainblock_height,
                })
            },
            MaintxIn::MaintxInEcdsaVariant(txin) => {
                MaintxIn::MaintxInEcdsaVariant(txin.clone())
            },
        }
    }
}

/// A fresh block-reward input for the given height.
pub fn new_mainblockrewardtxin(height: u32) -> (r: MaintxIn)
    ensures
        r@ == TxInView::Reward(TxInRewardView { mainblock_height: height }),
{
    MaintxIn::MaintxInMainBlockRewardVariant(MaintxInMainBlockReward {
        mainblock_height: height,
    })
}

/// A fresh ECDSA input spending the given prior output, with an empty
/// signature to be filled by the signer.
pub fn new_maintx_in_ecdsa(hash: crate::hash::Hash, index: u32, publickey: Vec<u8>) -> (r:
    MaintxIn)
    ensures
        r@ == TxInView::Ecdsa(TxInEcdsaView {
            hash: hash@,
            index,
            publickey: publickey@,
            signature: Seq::<u8>::empty(),
        }),
{
    let signature: Vec<u8> = Vec::new();
    proof {
        assert(signature@ =~= Seq::<u8>::empty());
    }
    MaintxIn::MaintxInEcdsaVariant(MaintxInEcdsa { hash, index, publickey, signature })
}

/// Reads one input from the reader. Succeeds exactly when the bytes at the
/// current position parse as an input; the position then stands after it.
pub fn unserialize_maintx_in(reader: &mut BufferReader) -> (r: Result<MaintxIn, MaintxInError>)
    ensures
        final(reader).buf() == old(reader).buf(),
        match r {
            Ok(t) => {
                &&& parse_txin(old(reader).buf(), old(reader).pos())
                    == Some((t@, final(reader).pos()))
                &&& txin_wf(t@)
            },
            Err(e) => parse_txin(old(reader).buf(), old(reader).pos()) is None,
        },
{
    let txin_id = match reader.get_var_u32() {
        Ok(v) => v,
        Err(e) => {
            return Err(MaintxInError::BufferReaderError(e));
        },
    };
    if txin_id == MAINTX_IN_IDENTIFIER_ECDSA {
        let hash = match reader.get_hash() {
            Ok(v) => v,
            Err(e) => {
                return Err(MaintxInError::BufferReaderError(e));
            },
        };
        proof {
            use_type_invariant(&hash);
            hash.lemma_wf_len();
        }
        let index = match reader.get_var_u32() {
            Ok(v) => v,
            Err(e) => {
                return Err(MaintxInError::BufferReaderError(e));
            },
        };
        let publickey = match reader.get_var_bytes() {
            Ok(v) => v,
            Err(e) => {
                return Err(MaintxInError::BufferReaderError(e));
            },
        };
        let signature = match reader.get_var_bytes() {
            Ok(v) => v,
            Err(e) => {
                return Err(MaintxInError::BufferReaderError(e));
            },
        };
        let _extra_bytes = match reader.get_var_u64() {
            Ok(v) => v,
            Err(e) => {
                return Err(MaintxInError::BufferReaderError(e));
            },
        };
        Ok(MaintxIn::MaintxInEcdsaVariant(MaintxInEcdsa { hash, index, publickey, signature }))
    } else if txin_id == MAINTX_IN_IDENTIFIER_MAINBLOCK_REWARD {
        let mainblock_height = match reader.get_u32() {
            Ok(v) => v,
            Err(e) => {
                return Err(MaintxInError::BufferReaderError(e));
            },
        };
        Ok(MaintxIn::MaintxInMainBlockRewardVariant(MaintxInMainBlockReward {
            mainblock_height,
        }))
    } else {
        Err(MaintxInError::UnknownIdentifier(txin_id))
    }
}

/// Parsing the wire form (signatures included) of a well-formed input,
/// embedded in any buffer, yields the input back and consumes exactly its
/// bytes.
/// Parsing the payload of a wire-form ECDSA input (everything after the
/// variant tag) yields its fields and consumes exactly the payload.
#[verifier::rlimit(50)]
proof fn lemma_parse_txin_ecdsa_payload(pre: Seq<u8>, ev: TxInEcdsaView, rest: Seq<u8>)
    requires
        txin_wf(TxInView::Ecdsa(ev)),
    ensures
        ({
            let idx = spec_varint_bytes(ev.index as u64);
            let pk = spec_var_bytes(ev.publickey);
            let sg = spec_var_bytes(ev.signature);
            let ext = spec_varint_bytes(0);
            let s = pre + (ev.hash + idx + pk + sg + ext) + rest;
            let i = pre.len() as int;
            &&& parse_hash(s, i) == Some((ev.hash, i + 32))
            &&& parse_varint32(s, i + 32) == Some((ev.index, i + 32 + idx.len() as int))
            &&& parse_var_bytes(s, i + 32 + idx.len() as int)
                == Some((ev.publickey, i + 32 + idx.len() + pk.len() as int))
            &&& parse_var_bytes(s, i + 32 + idx.len() + pk.len() as int)
                == Some((ev.signature, i + 32 + idx.len() + pk.len() + sg.len() as int))
            &&& parse_varint(s, i + 32 + idx.len() + pk.len() + sg.len() as int)
                == Some((0u64, i + 32 + idx.len() + pk.len() + sg.len() + ext.len() as int))
        }),
{
    let idx = spec_varint_bytes(ev.index as u64);
    let pk = spec_var_bytes(ev.publickey);
    let sg = spec_var_bytes(ev.signature);
    let ext = spec_varint_bytes(0);
    let s = pre + (ev.hash + idx + pk + sg + ext) + rest;
    let p1 = pre + ev.hash;
    let p2 = p1 + idx;
    let p3 = p2 + pk;
    let p4 = p3 + sg;
    assert(s =~= pre + ev.hash + (idx + pk + sg + ext + rest));
    crate::codec::lemma_parse_bytes_round(pre, ev.hash, idx + pk + sg + ext + rest);
    assert(s =~= p1 + idx + (pk + sg + ext + rest));
    crate::codec::lemma_parse_varint32_round(p1, ev.index as u64, pk + sg + ext + rest);
    assert(s =~= p2 + pk + (sg + ext + rest));
    crate::codec::lemma_parse_var_bytes_round(p2, ev.publickey, sg + ext + rest);
    assert(s =~= p3 + sg + (ext + rest));
    crate::codec::lemma_parse_var_bytes_round(p3, ev.signature, ext + rest);
    assert(s =~= p4 + ext + rest);
    crate::codec::lemma_parse_varint_round(p4, 0, rest);
}

/// Parsing the wire form (signatures included) of a well-formed input,
/// embedded in any buffer, yields the input back and consumes exactly its
/// bytes.
#[verifier::rlimit(50)]
pub proof fn lemma_parse_txin_round(pre: Seq<u8>, t: TxInView, rest: Seq<u8>)
    requires
        txin_wf(t),
    ensures
        parse_txin(pre + spec_txin_bytes(t, true) + rest, pre.len() as int)
            == Some((t, pre.len() + spec_txin_bytes(t, true).len() as int)),
{
    let e = spec_txin_bytes(t, true);
    let s = pre + e + rest;
    match t {
        TxInView::Reward(rv) => {
            let tag = spec_varint_bytes(MAINTX_IN_IDENTIFIER_MAINBLOCK_REWARD as u64);
            assert(s =~= pre + tag + (spec_u32_to_le_bytes(rv.mainblock_height) + rest));
            crate::codec::lemma_parse_varint32_round(
                pre,
                MAINTX_IN_IDENTIFIER_MAINBLOCK_REWARD as u64,
                spec_u32_to_le_bytes(rv.mainblock_height) + rest,
            );
            assert(s =~= (pre + tag) + spec_u32_to_le_bytes(rv.mainblock_height) + rest);
            crate::codec::lemma_parse_u32_round(pre + tag, rv.mainblock_height, rest);
            assert(parse_varint32(s, pre.len() as int) == Some((0u32, pre.len() as int + 1)));
            assert(parse_u32(s, pre.len() as int + 1) == Some((rv.mainblock_height, pre.len() as int + 5)));
            assert(e.len() == 5) by {
                vstd::bytes::lemma_auto_spec_u32_to_from_le_bytes();
            }
            assert(parse_txin(s, pre.len() as int) == Some((TxInView::Reward(rv), pre.len() as int + 5)));
        },
        TxInView::Ecdsa(ev) => {
            let tag = spec_varint_bytes(MAINTX_IN_IDENTIFIER_ECDSA as u64);
            let idx = spec_varint_bytes(ev.index as u64);
            let pk = spec_var_bytes(ev.publickey);
            let sg = spec_var_bytes(ev.signature);
            let ext = spec_varint_bytes(0);
            let payload = ev.hash + idx + pk + sg + ext;
            assert(s =~= pre + tag + (payload + rest));
            crate::codec::lemma_parse_varint32_round(
                pre,
                MAINTX_IN_IDENTIFIER_ECDSA as u64,
                payload + rest,
            );
            assert(s =~= (pre + tag) + payload + rest);
            lemma_parse_txin_ecdsa_payload(pre + tag, ev, rest);
        },
    }
}

} // verus!

//! Transaction outputs: a value in the smallest unit, payable to a
//! public-key hash.

use vstd::prelude::*;

verus! {

use crate::codec::BufferWriter;
use crate::codec::BufferReader;
use crate::codec::BufferReaderError;
use crate::codec::spec_varint_bytes;
use crate::codec::parse_u64;
use crate::codec::parse_varint;
use crate::codec::parse_varint32;
use crate::codec::parse_hash;
use vstd::bytes::spec_u64_to_le_bytes;

/// Variant tag of an ECDSA output on the wire.
pub const MAINTX_OUT_IDENTIFIER_ECDSA: u32 = 1;

/// An output paying `value` to the address `address` (a public-key hash).
pub struct MaintxOutEcdsa {
    pub value: u64,
    pub address: crate::hash::Hash,
}

/// A transaction output: a closed sum with a single variant so far.
pub enum MaintxOut {
    MaintxOutEcdsaVariant(MaintxOutEcdsa),
}

/// The mathematical value of a transaction output.
pub ghost struct TxOutView {
    pub value: u64,
    pub address: Seq<u8>,
}

impl View for MaintxOutEcdsa {
    type V = TxOutView;

    open spec fn view(&self) -> TxOutView {
        TxOutView { value: self.value, address: self.address@ }
    }
}

impl View for MaintxOut {
    type V = TxOutView;

    open spec fn view(&self) -> TxOutView {
        match self {
            MaintxOut::MaintxOutEcdsaVariant(e) => e@,
        }
    }
}

/// Well-formedness of an output value: the address is 32 bytes.
pub open spec fn txout_wf(o: TxOutView) -> bool {
    o.address.len() == 32
}

/// The wire bytes of an output: the value, the variant tag, the address,
/// and a reserved zero-length extension field.
pub open spec fn spec_txout_bytes(o: TxOutView) -> Seq<u8> {
    spec_u64_to_le_bytes(o.value) + spec_varint_bytes(MAINTX_OUT_IDENTIFIER_ECDSA as u64)
        + o.address + spec_varint_bytes(0)
}

/// Parses one output from position `i`: the value, the variant tag (only
/// the ECDSA tag is known), the address, and the reserved extension field
/// (whose value is not checked).
pub open spec fn parse_txout(s: Seq<u8>, i: int) -> Option<(TxOutView, int)> {
    match parse_u64(s, i) {
        None => None,
        Some((value, j)) => match parse_varint32(s, j) {
            None => None,
            Some((tag, j1)) => {
                if tag == MAINTX_OUT_IDENTIFIER_ECDSA {
                    match parse_hash(s, j1) {
                        None => None,
                        Some((address, j2)) => match parse_varint(s, j2) {
                            None => None,
                            Some((_, j3)) => Some((TxOutView { value, address }, j3)),
                        },
                    }
                } else {
                    None
                }
            },
        },
    }
}

/// Errors of the transaction-output module.
#[derive(Debug, Clone, Copy, PartialEq, Eq, Structural)]
pub enum MaintxOutError {
    /// The variant tag is not a known one, or the variant is not the one a
    /// caller asked for.
    InvalidVariant,
    /// The underlying read failed.
    BufferReaderError(BufferReaderError),
}

impl MaintxOutEcdsa {
    /// Appends the wire bytes of this output.
    pub fn serialize(&self, writer: &mut BufferWriter)
        ensures
            final(writer)@ == old(writer)@ + spec_txout_bytes(self@),
    {
        writer.put_u64(self.value);
        writer.put_var_u32(MAINTX_OUT_IDENTIFIER_ECDSA);
        writer.put_hash(&self.address);
        writer.put_var_u64(0);
        proof {
            assert(final(writer)@ =~= old(writer)@ + spec_txout_bytes(self@));
        }
    }
}

impl MaintxOut {
    /// Appends the wire bytes of this output.
    pub fn serialize(&self, writer: &mut BufferWriter)
        ensures
            final(writer)@ == old(writer)@ + spec_txout_bytes(self@),
    {
        match self {
            MaintxOut::MaintxOutEcdsaVariant(data) => data.serialize(writer),
        }
    }

    /// Whether this output is the ECDSA variant; the only one so far.
    pub fn is_ecdsa(&self) -> (r: bool)
        ensures
            r,
    {
        matches!(self, MaintxOut::MaintxOutEcdsaVariant(_))
    }

    /// Whether this output pays to the given address.
    pub fn matches_address(&self, address: &crate::hash::Hash) -> (r: bool)
        ensures
            r == (self@.address == address@),
    {
        match self {
            MaintxOut::MaintxOutEcdsaVariant(data) => data.address.is_eq(address),
        }
    }

    /// The ECDSA payload of this output.
    pub fn as_ecdsa(&self) -> (r: Result<&MaintxOutEcdsa, MaintxOutError>)
        ensures
            r matches Ok(e) && self@ == e@,
    {
        match self {
            MaintxOut::MaintxOutEcdsaVariant(data) => Ok(data),
        }
    }

    /// The address this output pays to.
    pub fn get_address(&self) -> (r: Result<crate::hash::Hash, MaintxOutError>)
        ensures
            r matches Ok(h) && h@ == self@.address,
    {
        match self.as_ecdsa() {
            Ok(data) => Ok(data.address.clone()),
            Err(e) => Err(e),
        }
    }

    /// The value this output carries.
    pub fn get_value(&self) -> (r: Result<u64, MaintxOutError>)
        ensures
            r matches Ok(v) && v == self@.value,
    {
        match self.as_ecdsa() {
            Ok(data) => Ok(data.value),
            Err(e) => Err(e),
        }
    }
}

impl Clone for MaintxOut {
    /// The clone holds the same mathematical value.
    fn clone(&self) -> (r: Self)
        ensures
            r@ == self@,
    {
        match self {
            MaintxOut::MaintxOutEcdsaVariant(data) => {
                MaintxOut::MaintxOutEcdsaVariant(MaintxOutEcdsa {
                    value: data.value,
                    address: data.address.clone(),
                })
            },
        }
    }
}

/// A fresh output paying `value` to `address`.
pub fn new_ecdsa_maintxout(value: u64, address: crate::hash::Hash) -> (r: MaintxOut)
    ensures
        r@ == (TxOutView { value, address: address@ }),
{
    MaintxOut::MaintxOutEcdsaVariant(MaintxOutEcdsa { value, address })
}

/// Reads one output from the reader. Succeeds exactly when the bytes at the
/// current position parse as an output; the position then stands after it.
pub fn unserialize_maintxout(reader: &mut BufferReader) -> (r: Result<MaintxOut, MaintxOutError>)
    ensures
        final(reader).buf() == old(reader).buf(),
        match r {
            Ok(o) => {
                &&& parse_txout(old(reader).buf(), old(reader).pos())
                    == Some((o@, final(reader).pos()))
                &&& txout_wf(o@)
            },
            Err(e) => parse_txout(old(reader).buf(), old(reader).pos()) is None,
        },
{
    let value = match reader.get_u64() {
        Ok(v) => v,
        Err(e) => {
            return Err(MaintxOutError::BufferReaderError(e));
        },
    };
    let identifier = match reader.get_var_u32() {
        Ok(v) => v,
        Err(e) => {
            return Err(MaintxOutError::BufferReaderError(e));
        },
    };
    if identifier == MAINTX_OUT_IDENTIFIER_ECDSA {
        let address = match reader.get_hash() {
            Ok(v) => v,
            Err(e) => {
                return Err(MaintxOutError::BufferReaderError(e));
            },
        };
        proof {
            use_type_invariant(&address);
            address.lemma_wf_len();
        }
        let _extra_data_len = match reader.get_var_u64() {
            Ok(v) => v,
            Err(e) => {
                return Err(MaintxOutError::BufferReaderError(e));
            },
        };
        Ok(new_ecdsa_maintxout(value, address))
    } else {
        Err(MaintxOutError::InvalidVariant)
    }
}

/// Parsing the wire form of a well-formed output, embedded in any buffer,
/// yields the output back and consumes exactly its bytes.
#[verifier::rlimit(50)]
pub proof fn lemma_parse_txout_round(pre: Seq<u8>, o: TxOutView, rest: Seq<u8>)
    requires
        txout_wf(o),
    ensures
        parse_txout(pre + spec_txout_bytes(o) + rest, pre.len() as int)
            == Some((o, pre.len() + spec_txout_bytes(o).len() as int)),
{
    vstd::bytes::lemma_auto_spec_u64_to_from_le_bytes();
    let e = spec_txout_bytes(o);
    let s = pre + e + rest;
    let val = spec_u64_to_le_bytes(o.value);
    let tag = spec_varint_bytes(MAINTX_OUT_IDENTIFIER_ECDSA as u64);
    let ext = spec_varint_bytes(0);
    let p1 = pre + val;
    let p2 = p1 + tag;
    let p3 = p2 + o.address;
    assert(s =~= pre + val + (tag + o.address + ext + rest));
    crate::codec::lemma_parse_u64_round(pre, o.value, tag + o.address + ext + rest);
    assert(s =~= p1 + tag + (o.address + ext + rest));
    crate::codec::lemma_parse_varint32_round(
        p1,
        MAINTX_OUT_IDENTIFIER_ECDSA as u64,
        o.address + ext + rest,
    );
    assert(s =~= p2 + o.address + (ext + rest));
    crate::codec::lemma_parse_bytes_round(p2, o.address, ext + rest);
    assert(s =~= p3 + ext + rest);
    crate::codec::lemma_parse_varint_round(p3, 0, rest);
    assert(e.len() == val.len() + tag.len() + 32 + ext.len());
}

} // verus!

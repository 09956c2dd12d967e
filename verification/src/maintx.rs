//! Versioned transactions: a list of inputs, a list of outputs, the signing
//! and wire serializations, the signing hash, and signature verification
//! over every ECDSA input.

use vstd::prelude::*;

verus! {

use crate::codec::BufferWriter;
use crate::codec::BufferReader;
use crate::codec::BufferReaderError;
use crate::codec::spec_varint_bytes;
use crate::codec::parse_varint;
use crate::codec::parse_varint32;
use crate::hash::sha3_256_of;
use crate::maintx_in::MaintxIn;
use crate::maintx_in::MaintxInError;
use crate::maintx_in::TxInView;
use crate::maintx_in::txin_wf;
use crate::maintx_in::spec_txin_bytes;
use crate::maintx_in::parse_txin;
use crate::maintx_in::unserialize_maintx_in;
use crate::maintx_in::new_mainblockrewardtxin;
use crate::maintx_out::MaintxOut;
use crate::maintx_out::MaintxOutError;
use crate::maintx_out::TxOutView;
use crate::maintx_out::txout_wf;
use crate::maintx_out::spec_txout_bytes;
use crate::maintx_out::parse_txout;
use crate::maintx_out::unserialize_maintxout;
use crate::maintx_out::new_ecdsa_maintxout;
use crate::crypto::signature_passes;

/// A versioned transaction with variant inputs and outputs.
pub struct Maintx {
    pub version: u32,
    pub vin: Vec<MaintxIn>,
    pub vout: Vec<MaintxOut>,
}

/// The mathematical value of a transaction.
pub ghost struct TxView {
    pub version: u32,
    pub vin: Seq<TxInView>,
    pub vout: Seq<TxOutView>,
}

impl View for Maintx {
    type V = TxView;

    open spec fn view(&self) -> TxView {
        TxView {
            version: self.version,
            vin: self.vin@.map_values(|t: MaintxIn| t@),
            vout: self.vout@.map_values(|o: MaintxOut| o@),
        }
    }
}

/// Well-formedness of a transaction value: every input and output is
/// well-formed and the list lengths fit their 64-bit count prefixes.
pub open spec fn tx_wf(t: TxView) -> bool {
    &&& forall|i: int| 0 <= i < t.vin.len() ==> txin_wf(#[trigger] t.vin[i])
    &&& forall|i: int| 0 <= i < t.vout.len() ==> txout_wf(#[trigger] t.vout[i])
    &&& t.vin.len() <= u64::MAX
    &&& t.vout.len() <= u64::MAX
}

/// The concatenated wire bytes of a list of inputs.
pub open spec fn concat_txins(s: Seq<TxInView>, signing: bool) -> Seq<u8>
    decreases s.len(),
{
    if s.len() == 0 {
        Seq::<u8>::empty()
    } else {
        spec_txin_bytes(s[0], signing) + concat_txins(s.skip(1), signing)
    }
}

/// The concatenated wire bytes of a list of outputs.
pub open spec fn concat_txouts(s: Seq<TxOutView>) -> Seq<u8>
    decreases s.len(),
{
    if s.len() == 0 {
        Seq::<u8>::empty()
    } else {
        spec_txout_bytes(s[0]) + concat_txouts(s.skip(1))
    }
}

/// The serialization of a transaction: the version, the input count and the
/// inputs, the output count and the outputs. With `signing` false the ECDSA
/// signatures are omitted: the form the signing hash is computed over.
pub open spec fn spec_tx_bytes(t: TxView, signing: bool) -> Seq<u8> {
    spec_varint_bytes(t.version as u64)
        + spec_varint_bytes(t.vin.len() as u64)
        + concat_txins(t.vin, signing)
        + spec_varint_bytes(t.vout.len() as u64)
        + concat_txouts(t.vout)
}

/// The signing hash of a transaction: the digest of its serialization with
/// every signature omitted.
pub open spec fn spec_tx_signing_hash(t: TxView) -> Seq<u8> {
    sha3_256_of(spec_tx_bytes(t, false))
}

/// Parses `n` inputs one after another from position `i`.
pub open spec fn parse_txins(s: Seq<u8>, i: int, n: nat) -> Option<(Seq<TxInView>, int)>
    decreases n,
{
    if n == 0 {
        Some((Seq::<TxInView>::empty(), i))
    } else {
        match parse_txin(s, i) {
            None => None,
            Some((t, j)) => match parse_txins(s, j, (n - 1) as nat) {
                None => None,
                Some((ts, k)) => Some((seq![t] + ts, k)),
            },
        }
    }
}

/// Parses `n` outputs one after another from position `i`.
pub open spec fn parse_txouts(s: Seq<u8>, i: int, n: nat) -> Option<(Seq<TxOutView>, int)>
    decreases n,
{
    if n == 0 {
        Some((Seq::<TxOutView>::empty(), i))
    } else {
        match parse_txout(s, i) {
            None => None,
            Some((o, j)) => match parse_txouts(s, j, (n - 1) as nat) {
                None => None,
                Some((os, k)) => Some((seq![o] + os, k)),
            },
        }
    }
}

/// Parses a whole transaction from the start of the buffer; bytes after it
/// are ignored.
pub open spec fn parse_tx(s: Seq<u8>) -> Option<TxView> {
    match parse_varint32(s, 0) {
        None => None,
        Some((version, j)) => match parse_varint(s, j) {
            None => None,
            Some((vin_len, j1)) => match parse_txins(s, j1, vin_len as nat) {
                None => None,
                Some((vin, j2)) => match parse_varint(s, j2) {
                    None => None,
                    Some((vout_len, j3)) => match parse_txouts(s, j3, vout_len as nat) {
                        None => None,
                        Some((vout, _)) => Some(TxView { version, vin, vout }),
                    },
                },
            },
        },
    }
}

/// Validity of every signature in a transaction: each ECDSA input's key and
/// signature parse and verify against the transaction's signing hash; a
/// block-reward input has nothing to verify.
pub open spec fn spec_tx_sigs_valid(t: TxView) -> bool {
    forall|i: int| 0 <= i < t.vin.len() ==> match #[trigger] t.vin[i] {
        TxInView::Ecdsa(e) => signature_passes(e.publickey, spec_tx_signing_hash(t), e.signature),
        TxInView::Reward(_) => true,
    }
}

/// Errors of the transaction module.
#[derive(Debug, Clone, Copy, PartialEq, Eq, Structural)]
pub enum MaintxError {
    /// The underlying read failed.
    BufferReaderError(BufferReaderError),
    /// An input failed to parse.
    MaintxInError(MaintxInError),
    /// An output failed to parse.
    MaintxOutError(MaintxOutError),
}

// ------------------------------------------------------------------
// Concatenation and split lemmas
// ------------------------------------------------------------------

/// Appending one input appends its bytes.
pub proof fn lemma_concat_txins_snoc(s: Seq<TxInView>, x: TxInView, signing: bool)
    ensures
        concat_txins(s.push(x), signing) == concat_txins(s, signing)
            + spec_txin_bytes(x, signing),
    decreases s.len(),
{
    if s.len() == 0 {
        assert(s.push(x).skip(1) =~= Seq::<TxInView>::empty());
        assert(s.push(x)[0] == x);
        assert(concat_txins(s.push(x).skip(1), signing) == Seq::<u8>::empty());
        assert(concat_txins(s.push(x), signing)
            =~= concat_txins(s, signing) + spec_txin_bytes(x, signing));
    } else {
        lemma_concat_txins_snoc(s.skip(1), x, signing);
        assert(s.push(x).skip(1) =~= s.skip(1).push(x));
        assert(s.push(x)[0] == s[0]);
        assert(concat_txins(s.push(x), signing)
            =~= concat_txins(s, signing) + spec_txin_bytes(x, signing));
    }
}

/// Appending one output appends its bytes.
pub proof fn lemma_concat_txouts_snoc(s: Seq<TxOutView>, x: TxOutView)
    ensures
        concat_txouts(s.push(x)) == concat_txouts(s) + spec_txout_bytes(x),
    decreases s.len(),
{
    if s.len() == 0 {
        assert(s.push(x).skip(1) =~= Seq::<TxOutView>::empty());
        assert(s.push(x)[0] == x);
        assert(concat_txouts(s.push(x).skip(1)) == Seq::<u8>::empty());
        assert(concat_txouts(s.push(x)) =~= concat_txouts(s) + spec_txout_bytes(x));
    } else {
        lemma_concat_txouts_snoc(s.skip(1), x);
        assert(s.push(x).skip(1) =~= s.skip(1).push(x));
        assert(s.push(x)[0] == s[0]);
        assert(concat_txouts(s.push(x)) =~= concat_txouts(s) + spec_txout_bytes(x));
    }
}

/// Parsing `a + b` inputs is parsing `a`, then `b` where that left off.
proof fn lemma_parse_txins_split(s: Seq<u8>, i: int, a: nat, b: nat)
    ensures
        parse_txins(s, i, a + b) == match parse_txins(s, i, a) {
            None => None::<(Seq<TxInView>, int)>,
            Some((ts, j)) => match parse_txins(s, j, b) {
                None => None,
                Some((us, k)) => Some((ts + us, k)),
            },
        },
    decreases a,
{
    if a == 0 {
        match parse_txins(s, i, b) {
            None => {},
            Some((us, k)) => {
                assert(Seq::<TxInView>::empty() + us =~= us);
            },
        }
    } else {
        match parse_txin(s, i) {
            None => {
                assert(parse_txins(s, i, a + b) is None);
            },
            Some((t, j)) => {
                lemma_parse_txins_split(s, j, (a - 1) as nat, b);
                match parse_txins(s, j, (a - 1) as nat) {
                    None => {},
                    Some((ts, j2)) => {
                        match parse_txins(s, j2, b) {
                            None => {},
                            Some((us, k)) => {
                                assert(seq![t] + (ts + us) =~= (seq![t] + ts) + us);
                            },
                        }
                    },
                }
            },
        }
    }
}

/// Parsing `a + b` outputs is parsing `a`, then `b` where that left off.
proof fn lemma_parse_txouts_split(s: Seq<u8>, i: int, a: nat, b: nat)
    ensures
        parse_txouts(s, i, a + b) == match parse_txouts(s, i, a) {
            None => None::<(Seq<TxOutView>, int)>,
            Some((ts, j)) => match parse_txouts(s, j, b) {
                None => None,
                Some((us, k)) => Some((ts + us, k)),
            },
        },
    decreases a,
{
    if a == 0 {
        match parse_txouts(s, i, b) {
            None => {},
            Some((us, k)) => {
                assert(Seq::<TxOutView>::empty() + us =~= us);
            },
        }
    } else {
        match parse_txout(s, i) {
            None => {
                assert(parse_txouts(s, i, a + b) is None);
            },
            Some((t, j)) => {
                lemma_parse_txouts_split(s, j, (a - 1) as nat, b);
                match parse_txouts(s, j, (a - 1) as nat) {
                    None => {},
                    Some((ts, j2)) => {
                        match parse_txouts(s, j2, b) {
                            None => {},
                            Some((us, k)) => {
                                assert(seq![t] + (ts + us) =~= (seq![t] + ts) + us);
                            },
                        }
                    },
                }
            },
        }
    }
}

// ------------------------------------------------------------------
// The transaction itself
// ------------------------------------------------------------------

impl Maintx {
    /// Appends the transaction's serialization; with `signing` false the
    /// ECDSA signatures are omitted (the form the signing hash covers).
    pub fn serialize_with_buffer_writer(&self, buffer: &mut BufferWriter, signing: bool)
        requires
            tx_wf(self@),
        ensures
            final(buffer)@ == old(buffer)@ + spec_tx_bytes(self@, signing),
    {
        buffer.put_var_u32(self.version);
        buffer.put_var_u64(self.vin.len() as u64);
        let ghost head = old(buffer)@ + spec_varint_bytes(self.version as u64)
            + spec_varint_bytes(self@.vin.len() as u64);
        proof {
            assert(buffer@ =~= head);
            assert(self@.vin.take(0) =~= Seq::<TxInView>::empty());
        }
        let mut i: usize = 0;
        while i < self.vin.len()
            invariant
                tx_wf(self@),
                i <= self.vin.len(),
                buffer@ == head + concat_txins(self@.vin.take(i as int), signing),
            decreases self.vin.len() - i,
        {
            let ghost pre = self@.vin.take(i as int);
            self.vin[i].serialize(buffer, signing);
            proof {
                lemma_concat_txins_snoc(pre, self@.vin[i as int], signing);
                assert(self@.vin.take(i + 1) =~= pre.push(self@.vin[i as int]));
                assert(buffer@ =~= head + concat_txins(self@.vin.take(i + 1), signing));
            }
            i = i + 1;
        }
        proof {
            assert(self@.vin.take(self.vin.len() as int) =~= self@.vin);
        }
        buffer.put_var_u64(self.vout.len() as u64);
        let ghost head2 = head + concat_txins(self@.vin, signing)
            + spec_varint_bytes(self@.vout.len() as u64);
        proof {
            assert(buffer@ =~= head2);
            assert(self@.vout.take(0) =~= Seq::<TxOutView>::empty());
        }
        let mut j: usize = 0;
        while j < self.vout.len()
            invariant
                tx_wf(self@),
                j <= self.vout.len(),
                buffer@ == head2 + concat_txouts(self@.vout.take(j as int)),
            decreases self.vout.len() - j,
        {
            let ghost pre = self@.vout.take(j as int);
            self.vout[j].serialize(buffer);
            proof {
                lemma_concat_txouts_snoc(pre, self@.vout[j as int]);
                assert(self@.vout.take(j + 1) =~= pre.push(self@.vout[j as int]));
                assert(buffer@ =~= head2 + concat_txouts(self@.vout.take(j + 1)));
            }
            j = j + 1;
        }
        proof {
            assert(self@.vout.take(self.vout.len() as int) =~= self@.vout);
            assert(final(buffer)@ =~= old(buffer)@ + spec_tx_bytes(self@, signing));
        }
    }

    /// The wire bytes of the transaction, signatures included.
    pub fn serialize_transaction(&self) -> (r: Vec<u8>)
        requires
            tx_wf(self@),
        ensures
            r@ == spec_tx_bytes(self@, true),
    {
        let mut buffer = BufferWriter::new();
        self.serialize_with_buffer_writer(&mut buffer, true);
        proof {
            assert(buffer@ =~= spec_tx_bytes(self@, true));
        }
        buffer.get_bytes()
    }

    /// The signing hash: the digest of the serialization with every
    /// signature omitted. Two transactions that differ only in signature
    /// bytes have the same signing hash.
    pub fn compute_hash(&self) -> (r: crate::hash::Hash)
        requires
            tx_wf(self@),
        ensures
            r@ == spec_tx_signing_hash(self@),
    {
        let mut buffer = BufferWriter::new();
        self.serialize_with_buffer_writer(&mut buffer, false);
        proof {
            assert(buffer@ =~= spec_tx_bytes(self@, false));
        }
        let content = buffer.get_bytes();
        crate::hash::Hash::compute_hash(content.as_slice())
    }

    /// The byte length of the wire serialization.
    pub fn get_serialization_size(&self) -> (r: usize)
        requires
            tx_wf(self@),
        ensures
            r == spec_tx_bytes(self@, true).len(),
    {
        self.serialize_transaction().len()
    }

    /// Checks every input's signature against the transaction's signing
    /// hash, computed once: true exactly when every ECDSA input carries a
    /// key and signature that parse and verify; a reward input always
    /// passes.
    pub fn verify_signatures(&self) -> (r: bool)
        requires
            tx_wf(self@),
        ensures
            r == spec_tx_sigs_valid(self@),
    {
        let hash = self.compute_hash();
        let mut i: usize = 0;
        while i < self.vin.len()
            invariant
                tx_wf(self@),
                i <= self.vin.len(),
                hash@ == spec_tx_signing_hash(self@),
                forall|k: int| 0 <= k < i ==> match #[trigger] self@.vin[k] {
                    TxInView::Ecdsa(e) => signature_passes(
                        e.publickey,
                        spec_tx_signing_hash(self@),
                        e.signature,
                    ),
                    TxInView::Reward(_) => true,
                },
            decreases self.vin.len() - i,
        {
            let input = &self.vin[i];
            if input.is_ecdsa() && !input.verify_ecdsa_signature(hash.clone()) {
                proof {
                    let k = i as int;
                    assert(self@.vin[k] == self.vin@[k]@);
                    if spec_tx_sigs_valid(self@) {
                        assert(match self@.vin[k] {
                            TxInView::Ecdsa(e) => signature_passes(
                                e.publickey,
                                spec_tx_signing_hash(self@),
                                e.signature,
                            ),
                            TxInView::Reward(_) => true,
                        });
                    }
                }
                return false;
            }
            i = i + 1;
        }
        true
    }

    /// Reads a transaction back from its wire bytes. Succeeds exactly when
    /// the bytes parse as a transaction; bytes after it are ignored.
    pub fn unserialize_maintx(raw_bytes: Vec<u8>) -> (r: Result<Maintx, MaintxError>)
        ensures
            match r {
                Ok(tx) => parse_tx(raw_bytes@) == Some(tx@) && tx_wf(tx@),
                Err(e) => parse_tx(raw_bytes@) is None,
            },
    {
        let ghost s = raw_bytes@;
        let mut reader = BufferReader::new(raw_bytes);
        let version = match reader.get_var_u32() {
            Ok(v) => v,
            Err(e) => {
                return Err(MaintxError::BufferReaderError(e));
            },
        };
        let ghost j_ver = reader.pos();
        let vin_len = match reader.get_var_u64() {
            Ok(v) => v,
            Err(e) => {
                return Err(MaintxError::BufferReaderError(e));
            },
        };
        let ghost p_ins = reader.pos();
        let mut vin: Vec<MaintxIn> = Vec::new();
        let mut i: u64 = 0;
        proof {
            assert(vin@.map_values(|t: MaintxIn| t@) =~= Seq::<TxInView>::empty());
        }
        while i < vin_len
            invariant
                reader.buf() == s,
                s == raw_bytes@,
                i <= vin_len,
                vin@.len() == i,
                parse_varint32(s, 0) == Some((version, j_ver)),
                parse_varint(s, j_ver) == Some((vin_len, p_ins)),
                forall|k: int| 0 <= k < i ==> txin_wf((#[trigger] vin@[k])@),
                parse_txins(s, p_ins, i as nat)
                    == Some((vin@.map_values(|t: MaintxIn| t@), reader.pos())),
            decreases vin_len - i,
        {
            let ghost views0 = vin@.map_values(|t: MaintxIn| t@);
            let ghost p0 = reader.pos();
            let txin = match unserialize_maintx_in(&mut reader) {
                Ok(t) => t,
                Err(e) => {
                    proof {
                        assert(parse_txin(s, p0) is None);
                        assert(parse_txins(s, p0, (vin_len - i) as nat) is None);
                        lemma_parse_txins_split(s, p_ins, i as nat, (vin_len - i) as nat);
                        assert(i as nat + (vin_len - i) as nat == vin_len as nat);
                        assert(parse_txins(s, p_ins, vin_len as nat) is None);
                        assert(parse_tx(s) is None);
                    }
                    return Err(MaintxError::MaintxInError(e));
                },
            };
            vin.push(txin);
            i = i + 1;
            proof {
                lemma_parse_txins_split(s, p_ins, (i - 1) as nat, 1);
                assert(seq![txin@] + Seq::<TxInView>::empty() =~= seq![txin@]);
                assert(parse_txins(s, reader.pos(), 0)
                    == Some((Seq::<TxInView>::empty(), reader.pos())));
                assert(parse_txins(s, p0, 1) == Some((seq![txin@], reader.pos())));
                assert(vin@.map_values(|t: MaintxIn| t@) =~= views0 + seq![txin@]);
            }
        }
        let ghost j_ins = reader.pos();
        let ghost vin_views = vin@.map_values(|t: MaintxIn| t@);
        let vout_len = match reader.get_var_u64() {
            Ok(v) => v,
            Err(e) => {
                return Err(MaintxError::BufferReaderError(e));
            },
        };
        let ghost p_outs = reader.pos();
        let mut vout: Vec<MaintxOut> = Vec::new();
        let mut j: u64 = 0;
        proof {
            assert(vout@.map_values(|o: MaintxOut| o@) =~= Seq::<TxOutView>::empty());
        }
        while j < vout_len
            invariant
                reader.buf() == s,
                s == raw_bytes@,
                j <= vout_len,
                vout@.len() == j,
                parse_varint32(s, 0) == Some((version, j_ver)),
                parse_varint(s, j_ver) == Some((vin_len, p_ins)),
                parse_txins(s, p_ins, vin_len as nat) == Some((vin_views, j_ins)),
                vin_views == vin@.map_values(|t: MaintxIn| t@),
                forall|k: int| 0 <= k < vin@.len() ==> txin_wf((#[trigger] vin@[k])@),
                vin@.len() <= u64::MAX,
                parse_varint(s, j_ins) == Some((vout_len, p_outs)),
                forall|k: int| 0 <= k < j ==> txout_wf((#[trigger] vout@[k])@),
                parse_txouts(s, p_outs, j as nat)
                    == Some((vout@.map_values(|o: MaintxOut| o@), reader.pos())),
            decreases vout_len - j,
        {
            let ghost views0 = vout@.map_values(|o: MaintxOut| o@);
            let ghost p0 = reader.pos();
            let txout = match unserialize_maintxout(&mut reader) {
                Ok(o) => o,
                Err(e) => {
                    proof {
                        assert(parse_txout(s, p0) is None);
                        assert(parse_txouts(s, p0, (vout_len - j) as nat) is None);
                        lemma_parse_txouts_split(s, p_outs, j as nat, (vout_len - j) as nat);
                        assert(j as nat + (vout_len - j) as nat == vout_len as nat);
                        assert(parse_txouts(s, p_outs, vout_len as nat) is None);
                        assert(parse_tx(s) is None);
                    }
                    return Err(MaintxError::MaintxOutError(e));
                },
            };
            vout.push(txout);
            j = j + 1;
            proof {
                lemma_parse_txouts_split(s, p_outs, (j - 1) as nat, 1);
                assert(seq![txout@] + Seq::<TxOutView>::empty() =~= seq![txout@]);
                assert(parse_txouts(s, reader.pos(), 0)
                    == Some((Seq::<TxOutView>::empty(), reader.pos())));
                assert(parse_txouts(s, p0, 1) == Some((seq![txout@], reader.pos())));
                assert(vout@.map_values(|o: MaintxOut| o@) =~= views0 + seq![txout@]);
            }
        }
        let tx = Maintx { version, vin, vout };
        Ok(tx)
    }
}

impl Clone for Maintx {
    /// The clone holds the same mathematical value.
    fn clone(&self) -> (r: Self)
        ensures
            r@ == self@,
    {
        let mut vin: Vec<MaintxIn> = Vec::new();
        let mut i: usize = 0;
        while i < self.vin.len()
            invariant
                i <= self.vin.len(),
                vin@.len() == i,
                forall|k: int| 0 <= k < i ==> (#[trigger] vin@[k])@ == self.vin@[k]@,
            decreases self.vin.len() - i,
        {
            vin.push(self.vin[i].clone());
            i = i + 1;
        }
        let mut vout: Vec<MaintxOut> = Vec::new();
        let mut j: usize = 0;
        while j < self.vout.len()
            invariant
                j <= self.vout.len(),
                vout@.len() == j,
                forall|k: int| 0 <= k < j ==> (#[trigger] vout@[k])@ == self.vout@[k]@,
            decreases self.vout.len() - j,
        {
            vout.push(self.vout[j].clone());
            j = j + 1;
        }
        let r = Maintx { version: self.version, vin, vout };
        proof {
            assert(r@.vin =~= self@.vin);
            assert(r@.vout =~= self@.vout);
        }
        r
    }
}

/// A fresh reward transaction minting `value + fee` to `pubkey_hash`,
/// tagged with the minting height. The sum must fit 64 bits.
pub fn new_reward_transaction(
    mainblock_height: u32,
    value: u64,
    fee: u64,
    pubkey_hash: crate::hash::Hash,
) -> (r: Maintx)
    requires
        value + fee <= u64::MAX,
    ensures
        r@.version == 1,
        r@.vin =~= seq![
            crate::maintx_in::TxInView::Reward(crate::maintx_in::TxInRewardView {
                mainblock_height,
            })
        ],
        r@.vout =~= seq![TxOutView { value: (value + fee) as u64, address: pubkey_hash@ }],
{
    let vin_entry = new_mainblockrewardtxin(mainblock_height);
    let vout_entry = new_ecdsa_maintxout(value + fee, pubkey_hash);
    let mut vin: Vec<MaintxIn> = Vec::new();
    vin.push(vin_entry);
    let mut vout: Vec<MaintxOut> = Vec::new();
    vout.push(vout_entry);
    Maintx { version: 1, vin, vout }
}

// ------------------------------------------------------------------
// Round trip and signing-hash independence
// ------------------------------------------------------------------

/// Parsing a concatenation of well-formed wire-form inputs yields them back.
#[verifier::rlimit(100)]
proof fn lemma_parse_txins_round(pre: Seq<u8>, ts: Seq<TxInView>, rest: Seq<u8>)
    requires
        forall|i: int| 0 <= i < ts.len() ==> txin_wf(#[trigger] ts[i]),
    ensures
        parse_txins(pre + concat_txins(ts, true) + rest, pre.len() as int, ts.len())
            == Some((ts, pre.len() + concat_txins(ts, true).len() as int)),
    decreases ts.len(),
{
    if ts.len() == 0 {
        assert(pre + concat_txins(ts, true) + rest =~= pre + rest);
    } else {
        let e0 = spec_txin_bytes(ts[0], true);
        let tail = concat_txins(ts.skip(1), true);
        assert(pre + concat_txins(ts, true) + rest =~= pre + e0 + (tail + rest));
        crate::maintx_in::lemma_parse_txin_round(pre, ts[0], tail + rest);
        assert(pre + e0 + (tail + rest) =~= (pre + e0) + tail + rest);
        lemma_parse_txins_round(pre + e0, ts.skip(1), rest);
        assert(seq![ts[0]] + ts.skip(1) =~= ts);
    }
}

/// Parsing a concatenation of well-formed wire-form outputs yields them
/// back.
#[verifier::rlimit(100)]
proof fn lemma_parse_txouts_round(pre: Seq<u8>, ts: Seq<TxOutView>, rest: Seq<u8>)
    requires
        forall|i: int| 0 <= i < ts.len() ==> txout_wf(#[trigger] ts[i]),
    ensures
        parse_txouts(pre + concat_txouts(ts) + rest, pre.len() as int, ts.len())
            == Some((ts, pre.len() + concat_txouts(ts).len() as int)),
    decreases ts.len(),
{
    if ts.len() == 0 {
        assert(pre + concat_txouts(ts) + rest =~= pre + rest);
    } else {
        let e0 = spec_txout_bytes(ts[0]);
        let tail = concat_txouts(ts.skip(1));
        assert(pre + concat_txouts(ts) + rest =~= pre + e0 + (tail + rest));
        crate::maintx_out::lemma_parse_txout_round(pre, ts[0], tail + rest);
        assert(pre + e0 + (tail + rest) =~= (pre + e0) + tail + rest);
        lemma_parse_txouts_round(pre + e0, ts.skip(1), rest);
        assert(seq![ts[0]] + ts.skip(1) =~= ts);
    }
}

/// Round trip: parsing the wire serialization of any well-formed
/// transaction yields the transaction back.
#[verifier::rlimit(60)]
pub proof fn lemma_parse_tx_round(t: TxView)
    requires
        tx_wf(t),
    ensures
        parse_tx(spec_tx_bytes(t, true)) == Some(t),
{
    let ver = spec_varint_bytes(t.version as u64);
    let nin = spec_varint_bytes(t.vin.len() as u64);
    let ins = concat_txins(t.vin, true);
    let nout = spec_varint_bytes(t.vout.len() as u64);
    let outs = concat_txouts(t.vout);
    let s = spec_tx_bytes(t, true);
    let p0 = Seq::<u8>::empty();
    let p1 = p0 + ver;
    let p2 = p1 + nin;
    let p3 = p2 + ins;
    let p4 = p3 + nout;
    assert(s =~= p0 + ver + (nin + ins + nout + outs));
    crate::codec::lemma_parse_varint32_round(p0, t.version as u64, nin + ins + nout + outs);
    assert(p0.len() == 0);
    assert(s =~= p1 + nin + (ins + nout + outs));
    crate::codec::lemma_parse_varint_round(p1, t.vin.len() as u64, ins + nout + outs);
    assert(s =~= p2 + ins + (nout + outs));
    lemma_parse_txins_round(p2, t.vin, nout + outs);
    assert(s =~= p3 + nout + outs);
    crate::codec::lemma_parse_varint_round(p3, t.vout.len() as u64, outs);
    assert(s =~= p4 + outs + Seq::<u8>::empty());
    lemma_parse_txouts_round(p4, t.vout, Seq::<u8>::empty());
}

/// Two inputs that differ at most in their signature bytes.
pub open spec fn txin_eq_except_signature(a: TxInView, b: TxInView) -> bool {
    match (a, b) {
        (TxInView::Reward(x), TxInView::Reward(y)) => x == y,
        (TxInView::Ecdsa(x), TxInView::Ecdsa(y)) => {
            &&& x.hash == y.hash
            &&& x.index == y.index
            &&& x.publickey == y.publickey
        },
        _ => false,
    }
}

/// Two transactions that differ at most in the signature bytes of their
/// ECDSA inputs.
pub open spec fn tx_eq_except_signatures(a: TxView, b: TxView) -> bool {
    &&& a.version == b.version
    &&& a.vout == b.vout
    &&& a.vin.len() == b.vin.len()
    &&& forall|i: int| 0 <= i < a.vin.len()
        ==> txin_eq_except_signature(#[trigger] a.vin[i], #[trigger] b.vin[i])
}

proof fn lemma_concat_txins_signing_eq(a: Seq<TxInView>, b: Seq<TxInView>)
    requires
        a.len() == b.len(),
        forall|i: int| 0 <= i < a.len()
            ==> txin_eq_except_signature(#[trigger] a[i], #[trigger] b[i]),
    ensures
        concat_txins(a, false) == concat_txins(b, false),
    decreases a.len(),
{
    if a.len() > 0 {
        assert(txin_eq_except_signature(a[0], b[0]));
        assert(spec_txin_bytes(a[0], false) == spec_txin_bytes(b[0], false));
        assert(forall|i: int| 0 <= i < a.skip(1).len()
            ==> txin_eq_except_signature(#[trigger] a.skip(1)[i], #[trigger] b.skip(1)[i]));
        lemma_concat_txins_signing_eq(a.skip(1), b.skip(1));
    }
}

/// Signing-hash independence: two transactions identical except for the
/// signature bytes of their ECDSA inputs serialize identically with
/// signatures omitted, so their signing hashes are identical.
pub proof fn lemma_signing_hash_ignores_signatures(a: TxView, b: TxView)
    requires
        tx_eq_except_signatures(a, b),
    ensures
        spec_tx_bytes(a, false) == spec_tx_bytes(b, false),
        spec_tx_signing_hash(a) == spec_tx_signing_hash(b),
{
    lemma_concat_txins_signing_eq(a.vin, b.vin);
}

} // verus!

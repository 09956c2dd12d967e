//! Blocks: a header and its ordered transaction list, serialized as the
//! length-prefixed header bytes, a transaction count, and each transaction's
//! length-prefixed wire bytes. Deserialization fails atomically: a malformed
//! segment yields an error, never a partial block.

use vstd::prelude::*;

verus! {

use crate::codec::BufferWriter;
use crate::codec::BufferReader;
use crate::codec::BufferReaderError;
use crate::codec::spec_varint_bytes;
use crate::codec::spec_var_bytes;
use crate::codec::parse_varint;
use crate::codec::parse_var_bytes;
use crate::hash::sha3_256_of;
use crate::mainheader::Mainheader;
use crate::mainheader::MainheaderError;
use crate::mainheader::HeaderView;
use crate::mainheader::header_wf;
use crate::mainheader::spec_header_bytes;
use crate::mainheader::spec_header_hash;
use crate::mainheader::spec_header_meets_target;
use crate::mainheader::parse_header;
use crate::mainheader::unserialize_mainheader;
use crate::maintx::Maintx;
use crate::maintx::MaintxError;
use crate::maintx::TxView;
use crate::maintx::tx_wf;
use crate::maintx::spec_tx_bytes;
use crate::maintx::parse_tx;
use vstd::bytes::spec_u32_to_le_bytes;
use vstd::bytes::spec_u64_to_le_bytes;

/// Errors of the block module.
#[derive(Debug, Clone, Copy, PartialEq, Eq, Structural)]
pub enum MainblockError {
    /// The underlying read failed.
    BufferReaderError(BufferReaderError),
    /// The header segment failed to parse.
    MainheaderError(MainheaderError),
    /// A transaction segment failed to parse.
    MaintxError(MaintxError),
}

/// A block: a header and its ordered list of transactions.
pub struct Mainblock {
    pub header: Mainheader,
    pub transactions: Vec<Maintx>,
}

/// The mathematical value of a block.
pub ghost struct BlockView {
    pub header: HeaderView,
    pub transactions: Seq<TxView>,
}

impl View for Mainblock {
    type V = BlockView;

    open spec fn view(&self) -> BlockView {
        BlockView {
            header: self.header@,
            transactions: self.transactions@.map_values(|t: Maintx| t@),
        }
    }
}

/// Well-formedness of a block value: the header and every transaction are
/// well-formed and the count fits its 64-bit prefix.
pub open spec fn block_wf(b: BlockView) -> bool {
    &&& header_wf(b.header)
    &&& forall|i: int| 0 <= i < b.transactions.len() ==> tx_wf(#[trigger] b.transactions[i])
    &&& b.transactions.len() <= u64::MAX
}

/// Every transaction's wire bytes fit the 32-bit length prefix its segment
/// carries: what serialization needs beyond well-formedness.
pub open spec fn block_tx_sizes_fit(b: BlockView) -> bool {
    forall|i: int| 0 <= i < b.transactions.len()
        ==> spec_tx_bytes(#[trigger] b.transactions[i], true).len() <= u32::MAX
}

/// The length-prefixed wire segments of a list of transactions.
pub open spec fn concat_tx_segments(ts: Seq<TxView>) -> Seq<u8>
    decreases ts.len(),
{
    if ts.len() == 0 {
        Seq::<u8>::empty()
    } else {
        spec_var_bytes(spec_tx_bytes(ts[0], true)) + concat_tx_segments(ts.skip(1))
    }
}

/// The wire bytes of a block: the length-prefixed header bytes, the
/// transaction count, and each transaction's length-prefixed wire bytes.
pub open spec fn spec_block_bytes(b: BlockView) -> Seq<u8> {
    spec_var_bytes(spec_header_bytes(b.header))
        + spec_varint_bytes(b.transactions.len() as u64)
        + concat_tx_segments(b.transactions)
}

/// Parses `n` length-prefixed transaction segments from position `i`; each
/// segment must itself parse as a transaction.
pub open spec fn parse_tx_segments(s: Seq<u8>, i: int, n: nat) -> Option<(Seq<TxView>, int)>
    decreases n,
{
    if n == 0 {
        Some((Seq::<TxView>::empty(), i))
    } else {
        match parse_var_bytes(s, i) {
            None => None,
            Some((seg, j)) => match parse_tx(seg) {
                None => None,
                Some(tx) => match parse_tx_segments(s, j, (n - 1) as nat) {
                    None => None,
                    Some((ts, k)) => Some((seq![tx] + ts, k)),
                },
            },
        }
    }
}

/// Parses a whole block from the start of the buffer; bytes after it are
/// ignored.
pub open spec fn parse_block(s: Seq<u8>) -> Option<BlockView> {
    match parse_var_bytes(s, 0) {
        None => None,
        Some((hseg, j)) => match parse_header(hseg) {
            None => None,
            Some(header) => match parse_varint(s, j) {
                None => None,
                Some((n, j1)) => match parse_tx_segments(s, j1, n as nat) {
                    None => None,
                    Some((transactions, _)) => Some(BlockView { header, transactions }),
                },
            },
        },
    }
}

impl Mainblock {
    /// Assembles a block from a header and its transactions.
    pub fn new(header: Mainheader, transactions: Vec<Maintx>) -> (r: Mainblock)
        ensures
            r@.header == header@,
            r@.transactions == transactions@.map_values(|t: Maintx| t@),
    {
        Mainblock { header, transactions }
    }

    /// Whether the header's cached hash equals its recomputed hash.
    pub fn check_hash(&self) -> (r: bool)
        ensures
            r == (self@.header.hash == spec_header_hash(self@.header)),
    {
        self.header.check_hash()
    }

    /// Whether the header satisfies proof of work.
    pub fn check_target(&self) -> (r: bool)
        ensures
            r == spec_header_meets_target(self@.header),
    {
        self.header.check_target()
    }

    /// The header's cached hash.
    pub fn get_hash(&self) -> (r: crate::hash::Hash)
        ensures
            r@ == self@.header.hash,
    {
        self.header.get_hash()
    }

    /// A copy of the block's header.
    pub fn get_mainheader(&self) -> (r: Mainheader)
        ensures
            r@ == self@.header,
    {
        self.header.clone()
    }

    /// The wire bytes of the block.
    pub fn serialize(&self) -> (r: Vec<u8>)
        requires
            block_wf(self@),
            block_tx_sizes_fit(self@),
        ensures
            r@ == spec_block_bytes(self@),
    {
        let mut bw = BufferWriter::new();
        let mainheader_rawbytes = self.header.serialize();
        proof {
            crate::codec::lemma_varint_bytes_len(self@.header.version as u64);
            vstd::bytes::lemma_auto_spec_u32_to_from_le_bytes();
            vstd::bytes::lemma_auto_spec_u64_to_from_le_bytes();
        }
        bw.put_var_bytes(mainheader_rawbytes.as_slice());
        bw.put_var_u64(self.transactions.len() as u64);
        let ghost head = spec_var_bytes(spec_header_bytes(self@.header))
            + spec_varint_bytes(self@.transactions.len() as u64);
        proof {
            assert(bw@ =~= head);
            assert(self@.transactions.take(0) =~= Seq::<TxView>::empty());
        }
        let mut i: usize = 0;
        while i < self.transactions.len()
            invariant
                block_wf(self@),
                block_tx_sizes_fit(self@),
                i <= self.transactions.len(),
                bw@ == head + concat_tx_segments(self@.transactions.take(i as int)),
            decreases self.transactions.len() - i,
        {
            let ghost pre = self@.transactions.take(i as int);
            proof {
                assert(self.transactions@[i as int]@ == self@.transactions[i as int]);
                assert(tx_wf(self@.transactions[i as int]));
                assert(spec_tx_bytes(self@.transactions[i as int], true).len() <= u32::MAX);
            }
            let transaction_rawbytes = self.transactions[i].serialize_transaction();
            bw.put_var_bytes(transaction_rawbytes.as_slice());
            proof {
                lemma_concat_tx_segments_snoc(pre, self@.transactions[i as int]);
                assert(self@.transactions.take(i + 1)
                    =~= pre.push(self@.transactions[i as int]));
                assert(bw@ =~= head + concat_tx_segments(self@.transactions.take(i + 1)));
            }
            i = i + 1;
        }
        proof {
            assert(self@.transactions.take(self.transactions.len() as int)
                =~= self@.transactions);
            assert(bw@ =~= spec_block_bytes(self@));
        }
        bw.get_bytes()
    }
}

impl Clone for Mainblock {
    /// The clone holds the same mathematical value.
    fn clone(&self) -> (r: Self)
        ensures
            r@ == self@,
    {
        let mut transactions: Vec<Maintx> = Vec::new();
        let mut i: usize = 0;
        while i < self.transactions.len()
            invariant
                i <= self.transactions.len(),
                transactions@.len() == i,
                forall|k: int| 0 <= k < i
                    ==> (#[trigger] transactions@[k])@ == self.transactions@[k]@,
            decreases self.transactions.len() - i,
        {
            transactions.push(self.transactions[i].clone());
            i = i + 1;
        }
        let r = Mainblock { header: self.header.clone(), transactions };
        proof {
            assert(r@.transactions =~= self@.transactions);
        }
        r
    }
}

/// Appending one transaction appends its length-prefixed segment.
proof fn lemma_concat_tx_segments_snoc(s: Seq<TxView>, x: TxView)
    ensures
        concat_tx_segments(s.push(x)) == concat_tx_segments(s)
            + spec_var_bytes(spec_tx_bytes(x, true)),
    decreases s.len(),
{
    if s.len() == 0 {
        assert(s.push(x).skip(1) =~= Seq::<TxView>::empty());
        assert(s.push(x)[0] == x);
        assert(concat_tx_segments(s.push(x).skip(1)) == Seq::<u8>::empty());
        assert(concat_tx_segments(s.push(x))
            =~= concat_tx_segments(s) + spec_var_bytes(spec_tx_bytes(x, true)));
    } else {
        lemma_concat_tx_segments_snoc(s.skip(1), x);
        assert(s.push(x).skip(1) =~= s.skip(1).push(x));
        assert(s.push(x)[0] == s[0]);
        assert(concat_tx_segments(s.push(x))
            =~= concat_tx_segments(s) + spec_var_bytes(spec_tx_bytes(x, true)));
    }
}

/// Parsing `a + b` transaction segments is parsing `a`, then `b` where that
/// left off.
proof fn lemma_parse_tx_segments_split(s: Seq<u8>, i: int, a: nat, b: nat)
    ensures
        parse_tx_segments(s, i, a + b) == match parse_tx_segments(s, i, a) {
            None => None::<(Seq<TxView>, int)>,
            Some((ts, j)) => match parse_tx_segments(s, j, b) {
                None => None,
                Some((us, k)) => Some((ts + us, k)),
            },
        },
    decreases a,
{
    if a == 0 {
        match parse_tx_segments(s, i, b) {
            None => {},
            Some((us, k)) => {
                assert(Seq::<TxView>::empty() + us =~= us);
            },
        }
    } else {
        match parse_var_bytes(s, i) {
            None => {
                assert(parse_tx_segments(s, i, a + b) is None);
            },
            Some((seg, j0)) => {
                match parse_tx(seg) {
                    None => {},
                    Some(tx) => {
                        lemma_parse_tx_segments_split(s, j0, (a - 1) as nat, b);
                        match parse_tx_segments(s, j0, (a - 1) as nat) {
                            None => {},
                            Some((ts, j2)) => {
                                match parse_tx_segments(s, j2, b) {
                                    None => {},
                                    Some((us, k)) => {
                                        assert(seq![tx] + (ts + us) =~= (seq![tx] + ts) + us);
                                    },
                                }
                            },
                        }
                    },
                }
            },
        }
    }
}

/// Reads a block back from its wire bytes. Succeeds exactly when the header
/// segment and every transaction segment parse; the first malformed segment
/// fails the whole block.
#[verifier::rlimit(100)]
pub fn unserialize_mainblock(rawbytes: Vec<u8>) -> (r: Result<Mainblock, MainblockError>)
    ensures
        match r {
            Ok(b) => parse_block(rawbytes@) == Some(b@) && block_wf(b@),
            Err(e) => parse_block(rawbytes@) is None,
        },
{
    let ghost s = rawbytes@;
    let mut br = BufferReader::new(rawbytes);
    let tmpmainheader_rawbytes = match br.get_var_bytes() {
        Ok(v) => v,
        Err(e) => {
            return Err(MainblockError::BufferReaderError(e));
        },
    };
    let ghost j_h = br.pos();
    let ghost hseg = tmpmainheader_rawbytes@;
    let tmpheader = match unserialize_mainheader(tmpmainheader_rawbytes) {
        Ok(h) => h,
        Err(e) => {
            return Err(MainblockError::MainheaderError(e));
        },
    };
    let tmptransactionslen = match br.get_var_u64() {
        Ok(v) => v,
        Err(e) => {
            return Err(MainblockError::BufferReaderError(e));
        },
    };
    let ghost p_txs = br.pos();
    let mut transactions: Vec<Maintx> = Vec::new();
    let mut i: u64 = 0;
    proof {
        assert(transactions@.map_values(|t: Maintx| t@) =~= Seq::<TxView>::empty());
    }
    while i < tmptransactionslen
        invariant
            br.buf() == s,
            s == rawbytes@,
            i <= tmptransactionslen,
            transactions@.len() == i,
            parse_var_bytes(s, 0) == Some((hseg, j_h)),
            parse_header(hseg) == Some(tmpheader@),
            header_wf(tmpheader@),
            parse_varint(s, j_h) == Some((tmptransactionslen, p_txs)),
            forall|k: int| 0 <= k < i ==> tx_wf((#[trigger] transactions@[k])@),
            parse_tx_segments(s, p_txs, i as nat)
                == Some((transactions@.map_values(|t: Maintx| t@), br.pos())),
        decreases tmptransactionslen - i,
    {
        let ghost views0 = transactions@.map_values(|t: Maintx| t@);
        let ghost p0 = br.pos();
        let tmptransaction_rawbytes = match br.get_var_bytes() {
            Ok(v) => v,
            Err(e) => {
                proof {
                    assert(parse_tx_segments(s, p0, (tmptransactionslen - i) as nat) is None);
                    lemma_parse_tx_segments_split(
                        s, p_txs, i as nat, (tmptransactionslen - i) as nat);
                    assert(i as nat + (tmptransactionslen - i) as nat
                        == tmptransactionslen as nat);
                    assert(parse_tx_segments(s, p_txs, tmptransactionslen as nat) is None);
                    assert(parse_block(s) is None);
                }
                return Err(MainblockError::BufferReaderError(e));
            },
        };
        let ghost seg = tmptransaction_rawbytes@;
        let ghost j_seg = br.pos();
        let tmptransaction = match Maintx::unserialize_maintx(tmptransaction_rawbytes) {
            Ok(t) => t,
            Err(e) => {
                proof {
                    assert(parse_tx(seg) is None);
                    assert(parse_tx_segments(s, p0, (tmptransactionslen - i) as nat) is None);
                    lemma_parse_tx_segments_split(
                        s, p_txs, i as nat, (tmptransactionslen - i) as nat);
                    assert(i as nat + (tmptransactionslen - i) as nat
                        == tmptransactionslen as nat);
                    assert(parse_tx_segments(s, p_txs, tmptransactionslen as nat) is None);
                    assert(parse_block(s) is None);
                }
                return Err(MainblockError::MaintxError(e));
            },
        };
        transactions.push(tmptransaction);
        i = i + 1;
        proof {
            lemma_parse_tx_segments_split(s, p_txs, (i - 1) as nat, 1);
            assert(seq![tmptransaction@] + Seq::<TxView>::empty() =~= seq![tmptransaction@]);
            assert(parse_tx_segments(s, br.pos(), 0)
                == Some((Seq::<TxView>::empty(), br.pos())));
            assert(parse_tx_segments(s, p0, 1) == Some((seq![tmptransaction@], br.pos())));
            assert(transactions@.map_values(|t: Maintx| t@) =~= views0 + seq![tmptransaction@]);
        }
    }
    let mb = Mainblock { header: tmpheader, transactions };
    Ok(mb)
}

/// The bytes of `compute_hash_mainblock_info`: like a header's hashed bytes
/// but with the version as a fixed-width word.
pub open spec fn spec_mainblock_info_bytes(
    version: u32,
    prev_hash: Seq<u8>,
    root_hash: Seq<u8>,
    timestamp: i64,
    bits: u32,
    nonce: u32,
) -> Seq<u8> {
    spec_u32_to_le_bytes(version)
        + prev_hash
        + root_hash
        + spec_u64_to_le_bytes(timestamp as u64)
        + spec_u32_to_le_bytes(bits)
        + spec_u32_to_le_bytes(nonce)
}

/// The hash of a block's consensus fields handed in separately, the version
/// written as a fixed-width word.
pub fn compute_hash_mainblock_info(
    version: u32,
    prev_hash: crate::hash::Hash,
    root_hash: crate::hash::Hash,
    timestamp: i64,
    bits: u32,
    nonce: u32,
) -> (r: crate::hash::Hash)
    ensures
        r@ == sha3_256_of(spec_mainblock_info_bytes(
            version,
            prev_hash@,
            root_hash@,
            timestamp,
            bits,
            nonce,
        )),
{
    let mut bw = BufferWriter::new();
    bw.put_u32(version);
    bw.put_hash(&prev_hash);
    bw.put_hash(&root_hash);
    bw.put_u64(timestamp as u64);
    bw.put_u32(bits);
    bw.put_u32(nonce);
    proof {
        assert(bw@ =~= spec_mainblock_info_bytes(
            version, prev_hash@, root_hash@, timestamp, bits, nonce));
    }
    let content = bw.get_bytes();
    crate::hash::Hash::compute_hash(content.as_slice())
}

/// Parsing a concatenation of well-formed transaction segments yields the
/// transactions back.
#[verifier::rlimit(100)]
proof fn lemma_parse_tx_segments_round(pre: Seq<u8>, ts: Seq<TxView>, rest: Seq<u8>)
    requires
        forall|i: int| 0 <= i < ts.len() ==> tx_wf(#[trigger] ts[i]),
        forall|i: int| 0 <= i < ts.len()
            ==> spec_tx_bytes(#[trigger] ts[i], true).len() <= u32::MAX,
    ensures
        parse_tx_segments(pre + concat_tx_segments(ts) + rest, pre.len() as int, ts.len())
            == Some((ts, pre.len() + concat_tx_segments(ts).len() as int)),
    decreases ts.len(),
{
    if ts.len() == 0 {
        assert(pre + concat_tx_segments(ts) + rest =~= pre + rest);
    } else {
        let e0 = spec_var_bytes(spec_tx_bytes(ts[0], true));
        let tail = concat_tx_segments(ts.skip(1));
        assert(pre + concat_tx_segments(ts) + rest =~= pre + e0 + (tail + rest));
        crate::codec::lemma_parse_var_bytes_round(pre, spec_tx_bytes(ts[0], true), tail + rest);
        crate::maintx::lemma_parse_tx_round(ts[0]);
        assert(pre + e0 + (tail + rest) =~= (pre + e0) + tail + rest);
        lemma_parse_tx_segments_round(pre + e0, ts.skip(1), rest);
        assert(seq![ts[0]] + ts.skip(1) =~= ts);
    }
}

/// Round trip: parsing the wire serialization of any well-formed block
/// yields the block back, header and transaction list alike.
#[verifier::rlimit(60)]
pub proof fn lemma_parse_block_round(b: BlockView)
    requires
        block_wf(b),
        block_tx_sizes_fit(b),
    ensures
        parse_block(spec_block_bytes(b)) == Some(b),
{
    let hb = spec_header_bytes(b.header);
    let hseg = spec_var_bytes(hb);
    let cnt = spec_varint_bytes(b.transactions.len() as u64);
    let segs = concat_tx_segments(b.transactions);
    let s = spec_block_bytes(b);
    let p0 = Seq::<u8>::empty();
    let p1 = p0 + hseg;
    let p2 = p1 + cnt;
    assert(hb.len() <= u32::MAX) by {
        crate::codec::lemma_varint_bytes_len(b.header.version as u64);
        vstd::bytes::lemma_auto_spec_u32_to_from_le_bytes();
        vstd::bytes::lemma_auto_spec_u64_to_from_le_bytes();
    }
    assert(s =~= p0 + hseg + (cnt + segs));
    crate::codec::lemma_parse_var_bytes_round(p0, hb, cnt + segs);
    assert(p0.len() == 0);
    crate::mainheader::lemma_parse_header_round(b.header);
    assert(s =~= p1 + cnt + segs);
    crate::codec::lemma_parse_varint_round(p1, b.transactions.len() as u64, segs);
    assert(s =~= p2 + segs + Seq::<u8>::empty());
    lemma_parse_tx_segments_round(p2, b.transactions, Seq::<u8>::empty());
}

} // verus!

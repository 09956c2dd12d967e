//! Block headers: the consensus fields, the cached self-hash and its check,
//! the proof-of-work target check, the wire serialization, and the bounded,
//! restartable proof-of-work search.

use vstd::prelude::*;

verus! {

use crate::codec::BufferWriter;
use crate::codec::BufferReader;
use crate::codec::BufferReaderError;
use crate::codec::spec_varint_bytes;
use crate::codec::parse_varint32;
use crate::codec::parse_u32;
use crate::codec::parse_u64;
use crate::codec::parse_hash;
use crate::hash::sha3_256_of;
use crate::bigint::le_val;
use crate::bigint::le_bytes_lt;
use crate::bigint::bigint_from_hash;
use crate::compact::compact_val;
use crate::compact::bigint_from_compact;
use vstd::bytes::spec_u32_to_le_bytes;
use vstd::bytes::spec_u64_to_le_bytes;

/// Errors of the header module.
#[derive(Debug, Clone, Copy, PartialEq, Eq, Structural)]
pub enum MainheaderError {
    /// The underlying read failed.
    BufferReaderError(BufferReaderError),
    /// No nonce within the search budget satisfied the target; retrying
    /// with a fresh timestamp or a new budget is the expected response.
    MiningUnsuccessful,
}

/// A block header. The `hash` field is a cached copy of the hash of the
/// other six fields: it is established by mining or deserialization and
/// checked on demand by `check_hash`, never recomputed implicitly.
pub struct Mainheader {
    version: u32,
    prev_hash: crate::hash::Hash,
    root_hash: crate::hash::Hash,
    timestamp: i64,
    bits: u32,
    nonce: u32,
    hash: crate::hash::Hash,
}

/// The mathematical value of a header.
pub ghost struct HeaderView {
    pub version: u32,
    pub prev_hash: Seq<u8>,
    pub root_hash: Seq<u8>,
    pub timestamp: i64,
    pub bits: u32,
    pub nonce: u32,
    pub hash: Seq<u8>,
}

impl View for Mainheader {
    type V = HeaderView;

    closed spec fn view(&self) -> HeaderView {
        HeaderView {
            version: self.version,
            prev_hash: self.prev_hash@,
            root_hash: self.root_hash@,
            timestamp: self.timestamp,
            bits: self.bits,
            nonce: self.nonce,
            hash: self.hash@,
        }
    }
}

/// Well-formedness of a header value: each hash field is 32 bytes.
pub open spec fn header_wf(h: HeaderView) -> bool {
    &&& h.prev_hash.len() == 32
    &&& h.root_hash.len() == 32
    &&& h.hash.len() == 32
}

/// The bytes the header's own hash is computed over: every field but the
/// cached hash itself.
pub open spec fn spec_header_core_bytes(h: HeaderView) -> Seq<u8> {
    spec_varint_bytes(h.version as u64)
        + h.prev_hash
        + h.root_hash
        + spec_u64_to_le_bytes(h.timestamp as u64)
        + spec_u32_to_le_bytes(h.bits)
        + spec_u32_to_le_bytes(h.nonce)
}

/// The hash the header's cached `hash` field must equal.
pub open spec fn spec_header_hash(h: HeaderView) -> Seq<u8> {
    sha3_256_of(spec_header_core_bytes(h))
}

/// The wire bytes of a header: the hashed fields followed by the cached
/// hash as a trailing raw 32-byte block.
pub open spec fn spec_header_bytes(h: HeaderView) -> Seq<u8> {
    spec_header_core_bytes(h) + h.hash
}

/// Whether a header satisfies proof of work: its hash, read as a
/// little-endian integer, is strictly below the compact-decoded target.
pub open spec fn spec_header_meets_target(h: HeaderView) -> bool {
    le_val(h.hash) < compact_val(h.bits)
}

/// Parses a whole header from the start of the buffer; bytes after it are
/// ignored.
pub open spec fn parse_header(s: Seq<u8>) -> Option<HeaderView> {
    match parse_varint32(s, 0) {
        None => None,
        Some((version, j)) => match parse_hash(s, j) {
            None => None,
            Some((prev_hash, j1)) => match parse_hash(s, j1) {
                None => None,
                Some((root_hash, j2)) => match parse_u64(s, j2) {
                    None => None,
                    Some((timestamp, j3)) => match parse_u32(s, j3) {
                        None => None,
                        Some((bits, j4)) => match parse_u32(s, j4) {
                            None => None,
                            Some((nonce, j5)) => match parse_hash(s, j5) {
                                None => None,
                                Some((hash, _)) => Some(HeaderView {
                                    version,
                                    prev_hash,
                                    root_hash,
                                    timestamp: timestamp as i64,
                                    bits,
                                    nonce,
                                    hash,
                                }),
                            },
                        },
                    },
                },
            },
        },
    }
}

impl Mainheader {
    /// Well-formedness: the three hash fields each hold 32 bytes; every
    /// header satisfies it. Obtain it with `use_type_invariant`.
    #[verifier::type_invariant]
    pub closed spec fn inv(self) -> bool {
        header_wf(self@)
    }

    /// A header's view is well-formed.
    pub proof fn lemma_wf(self)
        requires
            self.inv(),
        ensures
            header_wf(self@),
    {
    }

    /// Assembles a header from its fields; the caller is responsible for a
    /// `hash` consistent with the others (see `check_hash`).
    pub fn new(
        version: u32,
        prev_hash: crate::hash::Hash,
        root_hash: crate::hash::Hash,
        timestamp: i64,
        bits: u32,
        nonce: u32,
        hash: crate::hash::Hash,
    ) -> (r: Mainheader)
        ensures
            r@ == (HeaderView {
                version,
                prev_hash: prev_hash@,
                root_hash: root_hash@,
                timestamp,
                bits,
                nonce,
                hash: hash@,
            }),
    {
        proof {
            use_type_invariant(&prev_hash);
            prev_hash.lemma_wf_len();
            use_type_invariant(&root_hash);
            root_hash.lemma_wf_len();
            use_type_invariant(&hash);
            hash.lemma_wf_len();
        }
        Mainheader { version, prev_hash, root_hash, timestamp, bits, nonce, hash }
    }

    pub fn get_version(&self) -> (r: u32)
        ensures
            r == self@.version,
    {
        self.version
    }

    pub fn get_prev_hash(&self) -> (r: crate::hash::Hash)
        ensures
            r@ == self@.prev_hash,
    {
        self.prev_hash.clone()
    }

    pub fn get_root_hash(&self) -> (r: crate::hash::Hash)
        ensures
            r@ == self@.root_hash,
    {
        self.root_hash.clone()
    }

    pub fn get_timestamp(&self) -> (r: i64)
        ensures
            r == self@.timestamp,
    {
        self.timestamp
    }

    pub fn get_bits(&self) -> (r: u32)
        ensures
            r == self@.bits,
    {
        self.bits
    }

    pub fn get_nonce(&self) -> (r: u32)
        ensures
            r == self@.nonce,
    {
        self.nonce
    }

    pub fn get_hash(&self) -> (r: crate::hash::Hash)
        ensures
            r@ == self@.hash,
    {
        self.hash.clone()
    }

    /// Recomputes the hash of the six consensus fields; the cached `hash`
    /// field takes no part in it.
    pub fn compute_hash(&self) -> (r: crate::hash::Hash)
        ensures
            r@ == spec_header_hash(self@),
    {
        let mut bw = BufferWriter::new();
        bw.put_var_u32(self.version);
        bw.put_hash(&self.prev_hash);
        bw.put_hash(&self.root_hash);
        bw.put_u64(self.timestamp as u64);
        bw.put_u32(self.bits);
        bw.put_u32(self.nonce);
        proof {
            assert(bw@ =~= spec_header_core_bytes(self@));
        }
        let content = bw.get_bytes();
        crate::hash::Hash::compute_hash(content.as_slice())
    }

    /// Whether the cached hash equals the recomputed hash of the other
    /// fields.
    pub fn check_hash(&self) -> (r: bool)
        ensures
            r == (self@.hash == spec_header_hash(self@)),
    {
        let tmp_hash = self.compute_hash();
        self.hash.is_eq(&tmp_hash)
    }

    /// Whether the header satisfies proof of work: its hash as a
    /// little-endian integer is strictly below the compact-decoded target.
    pub fn check_target(&self) -> (r: bool)
        ensures
            r == spec_header_meets_target(self@),
    {
        let bits_bigint = bigint_from_compact(self.bits);
        let hash_bigint = bigint_from_hash(&self.hash);
        le_bytes_lt(&hash_bigint, &bits_bigint)
    }

    /// The wire bytes of the header: the hashed fields, then the cached
    /// hash as a trailing raw block.
    pub fn serialize(&self) -> (r: Vec<u8>)
        ensures
            r@ == spec_header_bytes(self@),
    {
        let mut bw = BufferWriter::new();
        bw.put_var_u32(self.version);
        bw.put_hash(&self.prev_hash);
        bw.put_hash(&self.root_hash);
        bw.put_u64(self.timestamp as u64);
        bw.put_u32(self.bits);
        bw.put_u32(self.nonce);
        bw.put_hash(&self.hash);
        proof {
            assert(bw@ =~= spec_header_bytes(self@));
        }
        bw.get_bytes()
    }
}

impl Clone for Mainheader {
    /// The clone holds the same mathematical value.
    fn clone(&self) -> (r: Self)
        ensures
            r@ == self@,
    {
        proof {
            use_type_invariant(&*self);
        }
        Mainheader {
            version: self.version,
            prev_hash: self.prev_hash.clone(),
            root_hash: self.root_hash.clone(),
            timestamp: self.timestamp,
            bits: self.bits,
            nonce: self.nonce,
            hash: self.hash.clone(),
        }
    }
}

/// Reads a header back from its wire bytes. Succeeds exactly when the bytes
/// parse as a header; bytes after it are ignored.
pub fn unserialize_mainheader(rawbytes: Vec<u8>) -> (r: Result<Mainheader, MainheaderError>)
    ensures
        match r {
            Ok(h) => parse_header(rawbytes@) == Some(h@) && header_wf(h@),
            Err(e) => parse_header(rawbytes@) is None && e is BufferReaderError,
        },
{
    let mut br = BufferReader::new(rawbytes);
    let tmpversion = match br.get_var_u32() {
        Ok(v) => v,
        Err(e) => {
            return Err(MainheaderError::BufferReaderError(e));
        },
    };
    let tmpprev_hash = match br.get_hash() {
        Ok(v) => v,
        Err(e) => {
            return Err(MainheaderError::BufferReaderError(e));
        },
    };
    let tmproot_hash = match br.get_hash() {
        Ok(v) => v,
        Err(e) => {
            return Err(MainheaderError::BufferReaderError(e));
        },
    };
    let tmptimestamp = match br.get_u64() {
        Ok(v) => v,
        Err(e) => {
            return Err(MainheaderError::BufferReaderError(e));
        },
    };
    let tmpbits = match br.get_u32() {
        Ok(v) => v,
        Err(e) => {
            return Err(MainheaderError::BufferReaderError(e));
        },
    };
    let tmpnonce = match br.get_u32() {
        Ok(v) => v,
        Err(e) => {
            return Err(MainheaderError::BufferReaderError(e));
        },
    };
    let tmphash = match br.get_hash() {
        Ok(v) => v,
        Err(e) => {
            return Err(MainheaderError::BufferReaderError(e));
        },
    };
    proof {
        use_type_invariant(&tmpprev_hash);
        tmpprev_hash.lemma_wf_len();
        use_type_invariant(&tmproot_hash);
        tmproot_hash.lemma_wf_len();
        use_type_invariant(&tmphash);
        tmphash.lemma_wf_len();
    }
    Ok(Mainheader {
        version: tmpversion,
        prev_hash: tmpprev_hash,
        root_hash: tmproot_hash,
        timestamp: tmptimestamp as i64,
        bits: tmpbits,
        nonce: tmpnonce,
        hash: tmphash,
    })
}

/// The header the proof-of-work search builds for a given nonce, with the
/// cached hash set to the recomputed hash.
pub open spec fn spec_mined_header(
    version: u32,
    prev_hash: Seq<u8>,
    root_hash: Seq<u8>,
    timestamp: i64,
    bits: u32,
    nonce: u32,
) -> HeaderView {
    let core = HeaderView {
        version,
        prev_hash,
        root_hash,
        timestamp,
        bits,
        nonce,
        hash: Seq::<u8>::empty(),
    };
    HeaderView { hash: spec_header_hash(core), ..core }
}

/// Whether one nonce wins the proof-of-work search for the given fields.
pub open spec fn spec_mine_attempt_ok(
    version: u32,
    prev_hash: Seq<u8>,
    root_hash: Seq<u8>,
    timestamp: i64,
    bits: u32,
    nonce: u32,
) -> bool {
    spec_header_meets_target(
        spec_mined_header(version, prev_hash, root_hash, timestamp, bits, nonce),
    )
}

/// The proof-of-work search: try nonces `start_nonce`, `start_nonce + 1`,
/// ..., `budget` of them in all, and return the first header whose hash is
/// below the target. When no nonce in the budget satisfies the target the
/// search reports `MiningUnsuccessful`: a recoverable outcome, retried with
/// a new timestamp or a further nonce window, never a fatal error.
pub fn mine_mainheader_with_cpu(
    version: u32,
    prev_hash: crate::hash::Hash,
    root_hash: crate::hash::Hash,
    timestamp: i64,
    bits: u32,
    start_nonce: u32,
    budget: u32,
) -> (r: Result<Mainheader, MainheaderError>)
    requires
        start_nonce + budget <= u32::MAX + 1,
    ensures
        match r {
            Ok(h) => {
                &&& h@ == spec_mined_header(
                    version,
                    prev_hash@,
                    root_hash@,
                    timestamp,
                    bits,
                    h@.nonce,
                )
                &&& h@.hash == spec_header_hash(h@)
                &&& spec_header_meets_target(h@)
                &&& start_nonce <= h@.nonce < start_nonce + budget
                &&& forall|n: u32| start_nonce <= n < h@.nonce
                    ==> !spec_mine_attempt_ok(
                        version, prev_hash@, root_hash@, timestamp, bits, n,
                    )
            },
            Err(e) => {
                &&& e is MiningUnsuccessful
                &&& forall|n: u32| start_nonce <= n < start_nonce + budget
                    ==> !spec_mine_attempt_ok(
                        version, prev_hash@, root_hash@, timestamp, bits, n,
                    )
            },
        },
{
    let mut bw = BufferWriter::new();
    bw.put_var_u32(version);
    bw.put_hash(&prev_hash);
    bw.put_hash(&root_hash);
    bw.put_u64(timestamp as u64);
    bw.put_u32(bits);
    let ghost base = bw@;
    let target = bigint_from_compact(bits);
    let mut i: u32 = 0;
    while i < budget
        invariant
            start_nonce + budget <= u32::MAX + 1,
            i <= budget,
            bw@ == base,
            base == spec_varint_bytes(version as u64) + prev_hash@ + root_hash@
                + spec_u64_to_le_bytes(timestamp as u64) + spec_u32_to_le_bytes(bits),
            le_val(target@) == compact_val(bits),
            forall|n: u32| start_nonce <= n < start_nonce + i
                ==> !spec_mine_attempt_ok(version, prev_hash@, root_hash@, timestamp, bits, n),
        decreases budget - i,
    {
        let nonce = start_nonce + i;
        let mut newbw = bw.clone();
        newbw.put_u32(nonce);
        let ghost candidate = spec_mined_header(
            version, prev_hash@, root_hash@, timestamp, bits, nonce,
        );
        proof {
            assert(newbw@ =~= spec_header_core_bytes(candidate));
        }
        let content = newbw.get_bytes();
        let tmphash = crate::hash::Hash::compute_hash(content.as_slice());
        let hash_bigint = bigint_from_hash(&tmphash);
        if le_bytes_lt(&hash_bigint, &target) {
            proof {
                use_type_invariant(&prev_hash);
                prev_hash.lemma_wf_len();
                use_type_invariant(&root_hash);
                root_hash.lemma_wf_len();
                use_type_invariant(&tmphash);
                tmphash.lemma_wf_len();
            }
            let tmpmainheader = Mainheader {
                version,
                prev_hash,
                root_hash,
                timestamp,
                bits,
                nonce,
                hash: tmphash,
            };
            return Ok(tmpmainheader);
        }
        i = i + 1;
    }
    Err(MainheaderError::MiningUnsuccessful)
}

/// The hashed fields determine the hashed bytes and the hashed bytes
/// determine the fields: two well-formed headers whose hashes are computed
/// over the same bytes agree on every field but the cached hash. Flipping
/// any one of the six fields therefore always changes the bytes under the
/// hash.
pub proof fn lemma_header_core_injective(a: HeaderView, b: HeaderView)
    requires
        header_wf(a),
        header_wf(b),
        spec_header_core_bytes(a) == spec_header_core_bytes(b),
    ensures
        a.version == b.version,
        a.prev_hash == b.prev_hash,
        a.root_hash == b.root_hash,
        a.timestamp == b.timestamp,
        a.bits == b.bits,
        a.nonce == b.nonce,
{
    let s = spec_header_core_bytes(a);
    lemma_parse_header_core(a, Seq::<u8>::empty());
    lemma_parse_header_core(b, Seq::<u8>::empty());
    assert(spec_header_core_bytes(a) + Seq::<u8>::empty() =~= s);
    assert(spec_header_core_bytes(b) + Seq::<u8>::empty() =~= s);
    let ta = a.timestamp;
    let tb = b.timestamp;
    assert(ta as u64 == tb as u64 ==> ta == tb) by (bit_vector);
}

/// Parsing the six hashed fields of a well-formed header from its core
/// bytes yields the fields back.
#[verifier::rlimit(100)]
proof fn lemma_parse_header_core(h: HeaderView, rest: Seq<u8>)
    requires
        header_wf(h),
    ensures
        ({
            let s = spec_header_core_bytes(h) + rest;
            let ver = spec_varint_bytes(h.version as u64);
            let p1 = ver.len() as int;
            &&& parse_varint32(s, 0) == Some((h.version, p1))
            &&& parse_hash(s, p1) == Some((h.prev_hash, p1 + 32))
            &&& parse_hash(s, p1 + 32) == Some((h.root_hash, p1 + 64))
            &&& parse_u64(s, p1 + 64) == Some((h.timestamp as u64, p1 + 72))
            &&& parse_u32(s, p1 + 72) == Some((h.bits, p1 + 76))
            &&& parse_u32(s, p1 + 76) == Some((h.nonce, p1 + 80))
        }),
{
    vstd::bytes::lemma_auto_spec_u32_to_from_le_bytes();
    vstd::bytes::lemma_auto_spec_u64_to_from_le_bytes();
    let s = spec_header_core_bytes(h) + rest;
    let ver = spec_varint_bytes(h.version as u64);
    let ts = spec_u64_to_le_bytes(h.timestamp as u64);
    let bits = spec_u32_to_le_bytes(h.bits);
    let nonce = spec_u32_to_le_bytes(h.nonce);
    let p0 = Seq::<u8>::empty();
    let p1 = p0 + ver;
    let p2 = p1 + h.prev_hash;
    let p3 = p2 + h.root_hash;
    let p4 = p3 + ts;
    let p5 = p4 + bits;
    assert(s =~= p0 + ver + (h.prev_hash + h.root_hash + ts + bits + nonce + rest));
    crate::codec::lemma_parse_varint32_round(
        p0,
        h.version as u64,
        h.prev_hash + h.root_hash + ts + bits + nonce + rest,
    );
    assert(p0.len() == 0);
    assert(s =~= p1 + h.prev_hash + (h.root_hash + ts + bits + nonce + rest));
    crate::codec::lemma_parse_bytes_round(p1, h.prev_hash, h.root_hash + ts + bits + nonce + rest);
    assert(s =~= p2 + h.root_hash + (ts + bits + nonce + rest));
    crate::codec::lemma_parse_bytes_round(p2, h.root_hash, ts + bits + nonce + rest);
    assert(s =~= p3 + ts + (bits + nonce + rest));
    crate::codec::lemma_parse_u64_round(p3, h.timestamp as u64, bits + nonce + rest);
    assert(s =~= p4 + bits + (nonce + rest));
    crate::codec::lemma_parse_u32_round(p4, h.bits, nonce + rest);
    assert(s =~= p5 + nonce + rest);
    crate::codec::lemma_parse_u32_round(p5, h.nonce, rest);
}

/// Round trip: parsing the wire serialization of any well-formed header
/// yields the header back, the cached hash field included.
#[verifier::rlimit(50)]
pub proof fn lemma_parse_header_round(h: HeaderView)
    requires
        header_wf(h),
    ensures
        parse_header(spec_header_bytes(h)) == Some(h),
{
    lemma_parse_header_core(h, h.hash);
    let s = spec_header_bytes(h);
    assert(s =~= spec_header_core_bytes(h) + h.hash);
    let ver = spec_varint_bytes(h.version as u64);
    let p6 = spec_header_core_bytes(h);
    assert(s =~= p6 + h.hash + Seq::<u8>::empty());
    crate::codec::lemma_parse_bytes_round(p6, h.hash, Seq::<u8>::empty());
    assert(p6.len() == ver.len() + 80) by {
        vstd::bytes::lemma_auto_spec_u32_to_from_le_bytes();
        vstd::bytes::lemma_auto_spec_u64_to_from_le_bytes();
    }
    let t = h.timestamp;
    assert((t as u64) as i64 == t) by (bit_vector);
}

} // verus!

//! The chain orchestrator: the in-memory header-chain cache mirroring the
//! chunked block store, height accounting, and the difficulty retarget at
//! each interval boundary. Byte I/O stays with the caller: this module
//! prepares the filename and bytes of each append, decodes what was read
//! back, and commits the cache and the index only once a write is durable.

use vstd::prelude::*;

verus! {

use crate::bigint::le_val;
use crate::bigint::mul_small;
use crate::bigint::div_small;
use crate::bigint::effective_len;
use crate::compact::compact_val;
use crate::compact::compact_of;
use crate::compact::byte_len;
use crate::compact::bigint_from_compact;
use crate::compact::compact_from_bigint;
use crate::compact::canonical_compact;
use crate::compact::lemma_eff_len_is_byte_len;
use crate::compact::lemma_compact_encode_of_val;
use crate::mainheader::Mainheader;
use crate::mainheader::HeaderView;
use crate::mainblock::Mainblock;
use crate::mainblock::MainblockError;
use crate::mainblock::block_wf;
use crate::mainblock::block_tx_sizes_fit;
use crate::mainblock::spec_block_bytes;
use crate::mainblock::parse_block;
use crate::storage_directory::StorageDirectory;
use crate::storage_directory::chunk_name;
use crate::storage_directory::scan_last_index;

/// Number of blocks between difficulty recalculations.
pub const RETARGET_INTERVAL: usize = 4032;

/// Intended seconds between consecutive blocks.
pub const TARGET_BLOCK_SPACING: u64 = 300;

/// The ideal summed time over the deltas of one retarget window.
pub const RETARGET_IDEAL_TIME: u64 = 4031 * 300;

/// Errors of the orchestrator.
#[derive(Debug, Clone, Copy, PartialEq, Eq, Structural)]
pub enum MaincoreInnerError {
    /// A stored chunk failed to decode.
    MainblockError(MainblockError),
    /// The in-memory chain is empty where a header was asked for.
    EmptyChain,
    /// The asked height lies beyond the cached chain.
    UnknownHeight,
    /// The recomputed target exceeds what the compact form can carry.
    TargetOverflow,
}

/// The orchestrator: the block store's index bookkeeping, the height-ordered
/// in-memory header cache (a derived mirror of storage, never the source of
/// truth), and the fixed confirmation depth reserved for future finality
/// logic. Mutating operations assume one exclusive owner.
pub struct MaincoreInner {
    main_sd: StorageDirectory,
    header_vector: Vec<Mainheader>,
    confirmation_depth: usize,
}

/// The signed sum of the timestamp deltas at indices `[lo, hi)`: each delta
/// is the timestamp at an index minus the one just below it. A zero delta
/// (a stalled clock) contributes zero and is tolerated.
pub open spec fn sum_deltas(hs: Seq<HeaderView>, lo: int, hi: int) -> int
    decreases hi - lo,
{
    if hi <= lo {
        0
    } else {
        sum_deltas(hs, lo, hi - 1) + hs[hi - 1].timestamp - hs[hi - 2].timestamp
    }
}

/// Negative summed time is floored at zero before it scales the target.
pub open spec fn clamp_nonneg(x: int) -> int {
    if x < 0 {
        0
    } else {
        x
    }
}

/// The retarget value at a boundary: the previous target, scaled by the
/// actual summed time over the ideal summed time.
pub open spec fn spec_retarget_value(hs: Seq<HeaderView>) -> int {
    let h = hs.len() as int;
    compact_val(hs[h - 1].bits) * clamp_nonneg(sum_deltas(hs, h - 4031, h)) / 1_209_300
}

impl MaincoreInner {
    /// The cached headers, bottom height first.
    pub closed spec fn spec_headers(&self) -> Seq<HeaderView> {
        self.header_vector@.map_values(|h: Mainheader| h@)
    }

    /// The number of durably stored blocks.
    pub closed spec fn spec_count(&self) -> int {
        self.main_sd.spec_count()
    }

    /// The category the block files are named under.
    pub closed spec fn spec_category(&self) -> Seq<u8> {
        self.main_sd.spec_category()
    }

    /// The store's last written index, or `None` for an empty store.
    pub closed spec fn spec_last_index(&self) -> Option<usize> {
        self.main_sd.spec_last_index()
    }

    /// The configured confirmation depth.
    pub closed spec fn spec_confirmation_depth(&self) -> usize {
        self.confirmation_depth
    }

    /// A fresh orchestrator over an empty cache and an uninitialized store.
    pub fn new(category: Vec<u8>, confirmation_depth: usize) -> (r: Self)
        ensures
            r.spec_headers() == Seq::<HeaderView>::empty(),
            r.spec_count() == 0,
            r.spec_category() == category@,
            r.spec_confirmation_depth() == confirmation_depth,
    {
        let r = MaincoreInner {
            main_sd: StorageDirectory::new(category),
            header_vector: Vec::new(),
            confirmation_depth,
        };
        proof {
            assert(r.spec_headers() =~= Seq::<HeaderView>::empty());
        }
        r
    }

    /// Recovers the store's last index from a directory listing (the
    /// caller's scan of the block directory).
    pub fn init_storage_directory(&mut self, filenames: &Vec<Vec<u8>>)
        ensures
            final(self).spec_category() == old(self).spec_category(),
            final(self).spec_headers() == old(self).spec_headers(),
            final(self).spec_confirmation_depth() == old(self).spec_confirmation_depth(),
            final(self).spec_last_index() == match scan_last_index(
                old(self).spec_category(),
                filenames@.map_values(|n: Vec<u8>| n@),
            ) {
                None => None::<usize>,
                Some(ix) => Some(ix as usize),
            },
    {
        self.main_sd.init_storage_files_last_index(filenames);
    }

    /// The number of durably stored blocks.
    pub fn get_mainblocks_count(&self) -> (r: usize)
        requires
            self.spec_count() <= usize::MAX,
        ensures
            r == self.spec_count(),
    {
        match self.main_sd.get_storage_files_last_index() {
            Some(index) => index + 1,
            None => 0,
        }
    }

    /// The filename the block of a height is stored under; the caller reads
    /// those bytes and hands them to `unserialize_mainblock` or
    /// `load_mainheader_step`.
    pub fn block_chunk_filename(&self, height: usize) -> (r: Vec<u8>)
        ensures
            r@ == chunk_name(self.spec_category(), height as nat),
    {
        self.main_sd.chunk_filename(height)
    }

    /// One step of the startup replay: decode a stored chunk and push its
    /// header onto the cache; the first corrupt chunk fails the load and
    /// leaves the cache as it was.
    pub fn load_mainheader_step(&mut self, rawbytes: Vec<u8>) -> (r: Result<
        (),
        MaincoreInnerError,
    >)
        ensures
            final(self).spec_category() == old(self).spec_category(),
            final(self).spec_count() == old(self).spec_count(),
            final(self).spec_confirmation_depth() == old(self).spec_confirmation_depth(),
            match r {
                Ok(_) => {
                    &&& parse_block(rawbytes@) matches Some(b)
                        && final(self).spec_headers() == old(self).spec_headers().push(b.header)
                },
                Err(e) => {
                    &&& parse_block(rawbytes@) is None
                    &&& e is MainblockError
                    &&& final(self).spec_headers() == old(self).spec_headers()
                },
            },
    {
        let mb = match crate::mainblock::unserialize_mainblock(rawbytes) {
            Ok(b) => b,
            Err(e) => {
                return Err(MaincoreInnerError::MainblockError(e));
            },
        };
        let header = mb.get_mainheader();
        self.header_vector.push(header);
        proof {
            assert(self.spec_headers() =~= old(self).spec_headers().push(mb@.header));
        }
        Ok(())
    }

    /// Prepares a confirmed block's append: the filename of the next height
    /// and the block's wire bytes. Nothing changes until the caller has made
    /// the write durable and calls `commit_confirmed_mainblock`; a failed
    /// write leaves cache and index untouched.
    pub fn prepare_block_append(&self, mb: &Mainblock) -> (r: (Vec<u8>, Vec<u8>))
        requires
            block_wf(mb@),
            block_tx_sizes_fit(mb@),
            self.spec_count() <= usize::MAX,
        ensures
            r.0@ == chunk_name(self.spec_category(), self.spec_count() as nat),
            r.1@ == spec_block_bytes(mb@),
    {
        let filename = self.main_sd.next_chunk_filename();
        let bytes = mb.serialize();
        (filename, bytes)
    }

    /// Commits a confirmed block once its chunk is durably written under the
    /// filename `prepare_block_append` gave: the header joins the cache and
    /// the count advances by exactly one, keeping cache and storage in step.
    pub fn commit_confirmed_mainblock(&mut self, mb: &Mainblock)
        requires
            old(self).spec_count() <= usize::MAX,
        ensures
            final(self).spec_category() == old(self).spec_category(),
            final(self).spec_confirmation_depth() == old(self).spec_confirmation_depth(),
            final(self).spec_headers() == old(self).spec_headers().push(mb@.header),
            final(self).spec_count() == old(self).spec_count() + 1,
    {
        let header = mb.get_mainheader();
        self.header_vector.push(header);
        self.main_sd.confirm_append();
        proof {
            assert(self.spec_headers() =~= old(self).spec_headers().push(mb@.header));
        }
    }

    /// The newest cached header; an empty chain is an explicit error, never
    /// an underflow.
    pub fn get_last_inmem_mainheader(&self) -> (r: Result<Mainheader, MaincoreInnerError>)
        ensures
            match r {
                Ok(h) => self.spec_headers().len() > 0 && h@ == self.spec_headers().last(),
                Err(e) => self.spec_headers().len() == 0 && e is EmptyChain,
            },
    {
        if self.header_vector.len() == 0 {
            return Err(MaincoreInnerError::EmptyChain);
        }
        let last_block_height = self.header_vector.len() - 1;
        Ok(self.header_vector[last_block_height].clone())
    }

    /// The cached header at a height; a height at or beyond the cache is an
    /// explicit error, never a panic.
    pub fn get_inmem_mainheader(&self, header_height: usize) -> (r: Result<
        Mainheader,
        MaincoreInnerError,
    >)
        ensures
            match r {
                Ok(h) => {
                    &&& header_height < self.spec_headers().len()
                    &&& h@ == self.spec_headers()[header_height as int]
                },
                Err(e) => {
                    &&& header_height >= self.spec_headers().len()
                    &&& e is UnknownHeight
                },
            },
    {
        if header_height >= self.header_vector.len() {
            return Err(MaincoreInnerError::UnknownHeight);
        }
        Ok(self.header_vector[header_height].clone())
    }

    /// The difficulty bits of the next block. Away from a retarget boundary
    /// they are the previous block's bits unchanged. At a boundary (the next
    /// height an exact multiple of the interval) the previous target is
    /// scaled by the summed timestamp deltas of the window over the ideal
    /// time and re-encoded; a negative sum is floored at zero, and a scaled
    /// target too wide for the compact form is an explicit error.
    pub fn get_newbits(&self) -> (r: Result<u32, MaincoreInnerError>)
        ensures
            ({
                let hs = self.spec_headers();
                if hs.len() == 0 {
                    r == Err::<u32, MaincoreInnerError>(MaincoreInnerError::EmptyChain)
                } else if hs.len() % 4032 != 0 {
                    r == Ok::<u32, MaincoreInnerError>(hs.last().bits)
                } else if byte_len(spec_retarget_value(hs)) <= 255 {
                    r == Ok::<u32, MaincoreInnerError>(compact_of(spec_retarget_value(hs)))
                } else {
                    r == Err::<u32, MaincoreInnerError>(MaincoreInnerError::TargetOverflow)
                }
            }),
    {
        let ghost hs = self.spec_headers();
        let tmp_height = self.header_vector.len();
        if tmp_height == 0 {
            return Err(MaincoreInnerError::EmptyChain);
        }
        let prev_bits = self.header_vector[tmp_height - 1].get_bits();
        proof {
            assert(hs.last() == self.header_vector@[tmp_height - 1]@);
        }
        if tmp_height % RETARGET_INTERVAL == 0 {
            proof {
                assert(tmp_height >= 4032) by (nonlinear_arith)
                    requires
                        tmp_height % 4032 == 0,
                        tmp_height > 0,
                ;
            }
            let lo = tmp_height - (RETARGET_INTERVAL - 1);
            let mut summed: i128 = 0;
            let mut i = lo;
            while i < tmp_height
                invariant
                    1 <= lo <= i <= tmp_height,
                    lo == tmp_height - 4031,
                    tmp_height == self.header_vector@.len(),
                    hs == self.spec_headers(),
                    - ((i - lo) as i128) * 0x1_0000_0000_0000_0000 <= summed,
                    summed <= ((i - lo) as i128) * 0x1_0000_0000_0000_0000,
                    i - lo <= 4031,
                    summed == sum_deltas(hs, lo as int, i as int),
                decreases tmp_height - i,
            {
                let t1 = self.header_vector[i].get_timestamp();
                let t0 = self.header_vector[i - 1].get_timestamp();
                proof {
                    assert(hs[i as int] == self.header_vector@[i as int]@);
                    assert(hs[i - 1] == self.header_vector@[i - 1]@);
                    assert((((i - lo) as i128) + 1) * 0x1_0000_0000_0000_0000
                        == ((i - lo) as i128) * 0x1_0000_0000_0000_0000
                            + 0x1_0000_0000_0000_0000) by (nonlinear_arith);
                }
                let delta = (t1 as i128) - (t0 as i128);
                summed = summed + delta;
                i = i + 1;
            }
            let factor: u128 = if summed < 0 {
                0
            } else {
                summed as u128
            };
            proof {
                assert(((tmp_height - lo) as i128) * 0x1_0000_0000_0000_0000
                    < 0x1_0000_0000_0000_0000_0000_0000_0000) by (nonlinear_arith)
                    requires
                        tmp_height - lo <= 4031,
                ;
                assert(factor == clamp_nonneg(sum_deltas(hs, lo as int, tmp_height as int)));
            }
            let target = bigint_from_compact(prev_bits);
            let product = mul_small(&target, factor);
            let newtarget = div_small(&product, RETARGET_IDEAL_TIME);
            let n = effective_len(&newtarget);
            proof {
                lemma_eff_len_is_byte_len(newtarget@);
                assert(le_val(newtarget@) == spec_retarget_value(hs));
            }
            if n > 255 {
                return Err(MaincoreInnerError::TargetOverflow);
            }
            Ok(compact_from_bigint(&newtarget))
        } else {
            Ok(prev_bits)
        }
    }
}

/// Over a window whose every timestamp delta is one constant, the summed
/// time is the window length times that constant.
proof fn lemma_sum_deltas_const(hs: Seq<HeaderView>, lo: int, hi: int, d: int)
    requires
        lo <= hi,
        forall|k: int| lo <= k < hi
            ==> #[trigger] hs[k].timestamp == hs[k - 1].timestamp + d,
    ensures
        sum_deltas(hs, lo, hi) == (hi - lo) * d,
    decreases hi - lo,
{
    if hi <= lo {
        assert((hi - lo) * d == 0) by (nonlinear_arith)
            requires
                hi == lo,
        ;
    } else {
        lemma_sum_deltas_const(hs, lo, hi - 1, d);
        assert(hs[hi - 1].timestamp == hs[hi - 2].timestamp + d);
        assert((hi - 1 - lo) * d + d == (hi - lo) * d) by (nonlinear_arith);
    }
}

/// Retarget at an ideal boundary: with every timestamp delta over the
/// window equal to the target spacing, the summed time equals the ideal
/// time, the scaled target equals the previous target exactly, and
/// re-encoding yields the previous bits unchanged. This needs the previous
/// bits in canonical compact form: one whose encoding round-trips.
pub proof fn lemma_retarget_ideal(hs: Seq<HeaderView>)
    requires
        hs.len() % 4032 == 0,
        hs.len() >= 4032,
        forall|k: int| hs.len() - 4031 <= k < hs.len()
            ==> #[trigger] hs[k].timestamp == hs[k - 1].timestamp + 300,
        canonical_compact(hs.last().bits),
    ensures
        sum_deltas(hs, hs.len() - 4031, hs.len() as int) == 1_209_300,
        spec_retarget_value(hs) == compact_val(hs.last().bits),
        compact_of(spec_retarget_value(hs)) == hs.last().bits,
{
    let h = hs.len() as int;
    lemma_sum_deltas_const(hs, h - 4031, h, 300);
    assert(4031 * 300 == 1_209_300);
    let t = compact_val(hs[h - 1].bits);
    assert(t >= 0) by {
        crate::bigint::lemma_pow256_pos(
            (if crate::compact::compact_exponent(hs[h - 1].bits) > 3 {
                crate::compact::compact_exponent(hs[h - 1].bits) - 3
            } else {
                3 - crate::compact::compact_exponent(hs[h - 1].bits)
            }) as nat,
        );
        if crate::compact::compact_exponent(hs[h - 1].bits) > 3 {
            assert(t >= 0) by (nonlinear_arith)
                requires
                    t == (crate::compact::compact_mantissa(hs[h - 1].bits) as int)
                        * crate::bigint::pow256(
                        (crate::compact::compact_exponent(hs[h - 1].bits) - 3) as nat,
                    ),
                    crate::bigint::pow256(
                        (crate::compact::compact_exponent(hs[h - 1].bits) - 3) as nat,
                    ) >= 1,
            ;
        } else {
            vstd::arithmetic::div_mod::lemma_div_pos_is_pos(
                crate::compact::compact_mantissa(hs[h - 1].bits) as int,
                crate::bigint::pow256(
                    (3 - crate::compact::compact_exponent(hs[h - 1].bits)) as nat,
                ),
            );
        }
    }
    assert(t * 1_209_300 == t * 1_209_300 + 0);
    vstd::arithmetic::div_mod::lemma_fundamental_div_mod_converse_div(
        t * 1_209_300,
        1_209_300,
        t,
        0,
    );
    assert(spec_retarget_value(hs) == t);
    lemma_compact_encode_of_val(hs[h - 1].bits);
}

} // verus!

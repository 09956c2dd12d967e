//! The 32-byte digest type: byte-wise equality, hex rendering, and the
//! cryptographic hash of a byte string, computed by SHA3-256 behind a
//! trusted boundary.

use vstd::prelude::*;

verus! {

use sha3::Digest;
use vstd::slice::slice_to_vec;
use vstd::string::StringExecFns;
use crate::codec::HASH_SIZE;
use crate::codec::clone_bytes;

/// The digest that SHA3-256 assigns to a byte sequence. The digest of given
/// bytes depends on those bytes alone; nothing more is assumed of it.
pub uninterp spec fn sha3_256_of(data: Seq<u8>) -> Seq<u8>;

/// Relies on sha3::Sha3_256 through sha3::Digest::digest: the result is the
/// 32-byte SHA3-256 digest of the input, a function of the input alone.
#[verifier::external_body]
fn sha3_256(data: &[u8]) -> (r: Vec<u8>)
    ensures
        r@ == sha3_256_of(data@),
        r@.len() == HASH_SIZE,
{
    sha3::Sha3_256::digest(data).to_vec()
}

/// The all-zero digest, returned for an empty Merkle reduction.
pub open spec fn zero_hash() -> Seq<u8> {
    Seq::new(HASH_SIZE as nat, |i: int| 0u8)
}

/// Errors related to `Hash` operations.
#[derive(Debug, Clone, Copy, PartialEq, Eq, Structural)]
pub enum HashError {
    /// The input byte slice does not have the expected length of 32.
    InvalidLength { expected: usize, actual: usize },
}

/// A wrapper around a 32-byte hash. Equality is byte-wise.
pub struct Hash {
    bytes: Vec<u8>,
}

impl View for Hash {
    type V = Seq<u8>;

    closed spec fn view(&self) -> Seq<u8> {
        self.bytes@
    }
}

impl Hash {
    /// Well-formedness: every `Hash` holds exactly 32 bytes.
    #[verifier::type_invariant]
    pub closed spec fn wf(self) -> bool {
        self.bytes@.len() == HASH_SIZE
    }

    /// A well-formed `Hash` views as exactly 32 bytes. Obtain `wf` with
    /// `use_type_invariant`.
    pub proof fn lemma_wf_len(self)
        requires
            self.wf(),
        ensures
            self@.len() == HASH_SIZE,
    {
    }

    /// Create a new `Hash` from a fixed-size array of 32 bytes.
    pub fn new(data: [u8; HASH_SIZE]) -> (r: Self)
        ensures
            r@ == data@,
    {
        Hash { bytes: slice_to_vec(data.as_slice()) }
    }

    /// Create an empty `Hash` initialized to zeroes.
    pub fn new_empty() -> (r: Self)
        ensures
            r@ == zero_hash(),
    {
        let bytes = vec![0u8; HASH_SIZE];
        proof {
            assert(bytes@ =~= zero_hash());
        }
        Hash { bytes }
    }

    /// Convert the inner byte array to a `Vec<u8>`.
    pub fn to_vec(&self) -> (r: Vec<u8>)
        ensures
            r@ == self@,
    {
        clone_bytes(&self.bytes)
    }

    /// Get a reference to the inner bytes.
    pub fn as_bytes(&self) -> (r: &[u8])
        ensures
            r@ == self@,
    {
        self.bytes.as_slice()
    }

    /// Byte-wise equality with another hash.
    pub fn is_eq(&self, other: &Hash) -> (r: bool)
        ensures
            r == (self@ == other@),
    {
        let r = self.bytes == other.bytes;
        proof {
            if self.bytes@ =~= other.bytes@ {
                assert(self@ == other@);
            }
        }
        r
    }

    /// Create a `Hash` from a slice of bytes.
    /// Succeeds exactly when the slice length is 32.
    pub fn from_bytes(bytes: &[u8]) -> (r: Result<Self, HashError>)
        ensures
            match r {
                Ok(h) => h@ == bytes@ && bytes@.len() == HASH_SIZE,
                Err(e) => {
                    &&& bytes@.len() != HASH_SIZE
                    &&& e == (HashError::InvalidLength {
                        expected: HASH_SIZE,
                        actual: bytes@.len() as usize,
                    })
                },
            },
    {
        if bytes.len() != HASH_SIZE {
            return Err(HashError::InvalidLength { expected: HASH_SIZE, actual: bytes.len() });
        }
        Ok(Hash { bytes: slice_to_vec(bytes) })
    }

    /// Compute the SHA3-256 hash of the input data and return it as a `Hash`.
    pub fn compute_hash(data: &[u8]) -> (r: Self)
        ensures
            r@ == sha3_256_of(data@),
    {
        Hash { bytes: sha3_256(data) }
    }

    /// Render the hash as lower-case hexadecimal, two digits per byte.
    pub fn to_hex_string(&self) -> (r: String)
        ensures
            r@ == hex_of(self@),
    {
        proof {
            use_type_invariant(self);
        }
        let mut r = String::new();
        let mut idx: usize = 0;
        while idx < HASH_SIZE
            invariant
                idx <= HASH_SIZE,
                self.bytes@.len() == HASH_SIZE,
                r@ == hex_of(self.bytes@.take(idx as int)),
            decreases HASH_SIZE - idx,
        {
            let b = self.bytes[idx];
            proof {
                assert(b >> 4 < 16 && b & 0x0F < 16) by (bit_vector);
            }
            r.append(hex_digit_str(b >> 4));
            r.append(hex_digit_str(b & 0x0F));
            idx = idx + 1;
            proof {
                assert(r@ =~= hex_of(self.bytes@.take(idx as int)));
            }
        }
        proof {
            assert(self.bytes@.take(HASH_SIZE as int) =~= self.bytes@);
        }
        r
    }
}

impl Clone for Hash {
    /// The clone holds exactly the same bytes.
    fn clone(&self) -> (r: Self)
        ensures
            r@ == self@,
    {
        proof {
            use_type_invariant(self);
        }
        Hash { bytes: clone_bytes(&self.bytes) }
    }
}

impl PartialEq for Hash {
    fn eq(&self, other: &Self) -> (r: bool)
    {
        self.is_eq(other)
    }
}

impl Eq for Hash {

}

impl vstd::std_specs::cmp::PartialEqSpecImpl for Hash {
    open spec fn obeys_eq_spec() -> bool {
        true
    }

    open spec fn eq_spec(&self, other: &Hash) -> bool {
        self@ == other@
    }
}

/// The character for one hexadecimal digit value.
pub open spec fn hex_digit_char(n: u8) -> char {
    if n == 0 { '0' } else if n == 1 { '1' } else if n == 2 { '2' } else if n == 3 { '3' }
    else if n == 4 { '4' } else if n == 5 { '5' } else if n == 6 { '6' } else if n == 7 { '7' }
    else if n == 8 { '8' } else if n == 9 { '9' } else if n == 10 { 'a' } else if n == 11 { 'b' }
    else if n == 12 { 'c' } else if n == 13 { 'd' } else if n == 14 { 'e' } else { 'f' }
}

/// The hexadecimal rendering of a byte sequence: two digits per byte, high
/// nibble first.
pub open spec fn hex_of(s: Seq<u8>) -> Seq<char> {
    Seq::new((2 * s.len()) as nat, |i: int| {
        if i % 2 == 0 {
            hex_digit_char(s[i / 2] >> 4)
        } else {
            hex_digit_char(s[i / 2] & 0x0F)
        }
    })
}

/// One hexadecimal digit as a string slice.
fn hex_digit_str(n: u8) -> (r: &'static str)
    requires
        n < 16,
    ensures
        r@ == seq![hex_digit_char(n)],
{
    proof {
        reveal_strlit("0"); reveal_strlit("1"); reveal_strlit("2"); reveal_strlit("3");
        reveal_strlit("4"); reveal_strlit("5"); reveal_strlit("6"); reveal_strlit("7");
        reveal_strlit("8"); reveal_strlit("9"); reveal_strlit("a"); reveal_strlit("b");
        reveal_strlit("c"); reveal_strlit("d"); reveal_strlit("e"); reveal_strlit("f");
    }
    let r = match n {
        0 => "0", 1 => "1", 2 => "2", 3 => "3",
        4 => "4", 5 => "5", 6 => "6", 7 => "7",
        8 => "8", 9 => "9", 10 => "a", 11 => "b",
        12 => "c", 13 => "d", 14 => "e", _ => "f",
    };
    proof {
        assert(r@ =~= seq![hex_digit_char(n)]);
    }
    r
}

} // verus!

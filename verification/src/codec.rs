//! Canonical binary codec: little-endian fixed-width integers, the
//! variable-length integer format, length-prefixed byte blobs, and raw
//! 32-byte hash blocks, together with the specification-level encodings and
//! parsers that the serialization contracts of the other modules are stated
//! over.

use vstd::prelude::*;

verus! {

use vstd::bytes::spec_u16_to_le_bytes;
use vstd::bytes::spec_u32_to_le_bytes;
use vstd::bytes::spec_u64_to_le_bytes;
use vstd::bytes::spec_u16_from_le_bytes;
use vstd::bytes::spec_u32_from_le_bytes;
use vstd::bytes::spec_u64_from_le_bytes;
use vstd::bytes::lemma_auto_spec_u16_to_from_le_bytes;
use vstd::bytes::lemma_auto_spec_u32_to_from_le_bytes;
use vstd::bytes::lemma_auto_spec_u64_to_from_le_bytes;
use vstd::bytes::u16_to_le_bytes;
use vstd::bytes::u32_to_le_bytes;
use vstd::bytes::u64_to_le_bytes;
use vstd::bytes::u16_from_le_bytes;
use vstd::bytes::u32_from_le_bytes;
use vstd::bytes::u64_from_le_bytes;
use vstd::slice::slice_subrange;
use vstd::slice::slice_to_vec;

/// Number of bytes in a raw hash block.
pub const HASH_SIZE: usize = 32;

/// The variable-length encoding of a 64-bit integer: values below 253 take
/// one byte; prefix 253 is followed by a 16-bit little-endian value, 254 by a
/// 32-bit value and 255 by a 64-bit value.
pub open spec fn spec_varint_bytes(v: u64) -> Seq<u8> {
    if v < 253 {
        seq![v as u8]
    } else if v <= 0xFFFF {
        seq![253u8] + spec_u16_to_le_bytes(v as u16)
    } else if v <= 0xFFFF_FFFF {
        seq![254u8] + spec_u32_to_le_bytes(v as u32)
    } else {
        seq![255u8] + spec_u64_to_le_bytes(v)
    }
}

/// A length-prefixed blob: the varint of the length followed by the bytes.
pub open spec fn spec_var_bytes(b: Seq<u8>) -> Seq<u8> {
    spec_varint_bytes(b.len() as u64) + b
}

// ------------------------------------------------------------------
// Specification-level parsers. Each takes the buffer and a position and
// returns the parsed value with the position after it, or `None` when the
// buffer is too short (or, for `parse_varint32`, when the value cannot fit
// in 32 bits).
// ------------------------------------------------------------------

pub open spec fn parse_u8(s: Seq<u8>, i: int) -> Option<(u8, int)> {
    if 0 <= i && i + 1 <= s.len() {
        Some((s[i], i + 1))
    } else {
        None
    }
}

pub open spec fn parse_u16(s: Seq<u8>, i: int) -> Option<(u16, int)> {
    if 0 <= i && i + 2 <= s.len() {
        Some((spec_u16_from_le_bytes(s.subrange(i, i + 2)), i + 2))
    } else {
        None
    }
}

pub open spec fn parse_u32(s: Seq<u8>, i: int) -> Option<(u32, int)> {
    if 0 <= i && i + 4 <= s.len() {
        Some((spec_u32_from_le_bytes(s.subrange(i, i + 4)), i + 4))
    } else {
        None
    }
}

pub open spec fn parse_u64(s: Seq<u8>, i: int) -> Option<(u64, int)> {
    if 0 <= i && i + 8 <= s.len() {
        Some((spec_u64_from_le_bytes(s.subrange(i, i + 8)), i + 8))
    } else {
        None
    }
}

pub open spec fn parse_varint(s: Seq<u8>, i: int) -> Option<(u64, int)> {
    match parse_u8(s, i) {
        None => None,
        Some((b, j)) => {
            if b < 253 {
                Some((b as u64, j))
            } else if b == 253 {
                match parse_u16(s, j) {
                    None => None,
                    Some((v, k)) => Some((v as u64, k)),
                }
            } else if b == 254 {
                match parse_u32(s, j) {
                    None => None,
                    Some((v, k)) => Some((v as u64, k)),
                }
            } else {
                parse_u64(s, j)
            }
        },
    }
}

/// The 32-bit-bounded varint: the 255 prefix is rejected.
pub open spec fn parse_varint32(s: Seq<u8>, i: int) -> Option<(u32, int)> {
    match parse_u8(s, i) {
        None => None,
        Some((b, j)) => {
            if b < 253 {
                Some((b as u32, j))
            } else if b == 253 {
                match parse_u16(s, j) {
                    None => None,
                    Some((v, k)) => Some((v as u32, k)),
                }
            } else if b == 254 {
                parse_u32(s, j)
            } else {
                None
            }
        },
    }
}

/// True when the next varint at `i` carries the 255 prefix, which a 32-bit
/// bounded read must reject as "value exceeds 32 bits".
pub open spec fn varint32_prefix_overflows(s: Seq<u8>, i: int) -> bool {
    match parse_u8(s, i) {
        None => false,
        Some((b, _)) => b == 255,
    }
}

pub open spec fn parse_bytes(s: Seq<u8>, i: int, n: int) -> Option<(Seq<u8>, int)> {
    if 0 <= i && 0 <= n && i + n <= s.len() {
        Some((s.subrange(i, i + n), i + n))
    } else {
        None
    }
}

pub open spec fn parse_var_bytes(s: Seq<u8>, i: int) -> Option<(Seq<u8>, int)> {
    match parse_varint32(s, i) {
        None => None,
        Some((n, j)) => parse_bytes(s, j, n as int),
    }
}

pub open spec fn parse_hash(s: Seq<u8>, i: int) -> Option<(Seq<u8>, int)> {
    parse_bytes(s, i, HASH_SIZE as int)
}

// ------------------------------------------------------------------
// Round-trip lemmas: parsing an encoding embedded in a larger buffer yields
// the encoded value and consumes exactly the encoding.
// ------------------------------------------------------------------

pub proof fn lemma_parse_u16_round(pre: Seq<u8>, v: u16, rest: Seq<u8>)
    ensures
        parse_u16(pre + spec_u16_to_le_bytes(v) + rest, pre.len() as int)
            == Some((v, pre.len() as int + 2)),
{
    lemma_auto_spec_u16_to_from_le_bytes();
    let s = pre + spec_u16_to_le_bytes(v) + rest;
    assert(s.subrange(pre.len() as int, pre.len() as int + 2) =~= spec_u16_to_le_bytes(v));
}

pub proof fn lemma_parse_u32_round(pre: Seq<u8>, v: u32, rest: Seq<u8>)
    ensures
        parse_u32(pre + spec_u32_to_le_bytes(v) + rest, pre.len() as int)
            == Some((v, pre.len() as int + 4)),
{
    lemma_auto_spec_u32_to_from_le_bytes();
    let s = pre + spec_u32_to_le_bytes(v) + rest;
    assert(s.subrange(pre.len() as int, pre.len() as int + 4) =~= spec_u32_to_le_bytes(v));
}

pub proof fn lemma_parse_u64_round(pre: Seq<u8>, v: u64, rest: Seq<u8>)
    ensures
        parse_u64(pre + spec_u64_to_le_bytes(v) + rest, pre.len() as int)
            == Some((v, pre.len() as int + 8)),
{
    lemma_auto_spec_u64_to_from_le_bytes();
    let s = pre + spec_u64_to_le_bytes(v) + rest;
    assert(s.subrange(pre.len() as int, pre.len() as int + 8) =~= spec_u64_to_le_bytes(v));
}

pub proof fn lemma_parse_varint_round(pre: Seq<u8>, v: u64, rest: Seq<u8>)
    ensures
        parse_varint(pre + spec_varint_bytes(v) + rest, pre.len() as int)
            == Some((v, pre.len() + spec_varint_bytes(v).len() as int)),
{
    lemma_auto_spec_u16_to_from_le_bytes();
    lemma_auto_spec_u32_to_from_le_bytes();
    lemma_auto_spec_u64_to_from_le_bytes();
    let e = spec_varint_bytes(v);
    let s = pre + e + rest;
    assert(s[pre.len() as int] == e[0]);
    if v < 253 {
    } else if v <= 0xFFFF {
        assert(pre + e + rest =~= (pre + seq![253u8]) + spec_u16_to_le_bytes(v as u16) + rest);
        lemma_parse_u16_round(pre + seq![253u8], v as u16, rest);
    } else if v <= 0xFFFF_FFFF {
        assert(pre + e + rest =~= (pre + seq![254u8]) + spec_u32_to_le_bytes(v as u32) + rest);
        lemma_parse_u32_round(pre + seq![254u8], v as u32, rest);
    } else {
        assert(pre + e + rest =~= (pre + seq![255u8]) + spec_u64_to_le_bytes(v) + rest);
        lemma_parse_u64_round(pre + seq![255u8], v, rest);
    }
}

pub proof fn lemma_parse_varint32_round(pre: Seq<u8>, v: u64, rest: Seq<u8>)
    requires
        v <= u32::MAX,
    ensures
        parse_varint32(pre + spec_varint_bytes(v) + rest, pre.len() as int)
            == Some((v as u32, pre.len() + spec_varint_bytes(v).len() as int)),
{
    lemma_auto_spec_u16_to_from_le_bytes();
    lemma_auto_spec_u32_to_from_le_bytes();
    lemma_auto_spec_u64_to_from_le_bytes();
    let e = spec_varint_bytes(v);
    let s = pre + e + rest;
    assert(s[pre.len() as int] == e[0]);
    if v < 253 {
    } else if v <= 0xFFFF {
        assert(pre + e + rest =~= (pre + seq![253u8]) + spec_u16_to_le_bytes(v as u16) + rest);
        lemma_parse_u16_round(pre + seq![253u8], v as u16, rest);
    } else {
        assert(pre + e + rest =~= (pre + seq![254u8]) + spec_u32_to_le_bytes(v as u32) + rest);
        lemma_parse_u32_round(pre + seq![254u8], v as u32, rest);
    }
}

pub proof fn lemma_parse_bytes_round(pre: Seq<u8>, b: Seq<u8>, rest: Seq<u8>)
    ensures
        parse_bytes(pre + b + rest, pre.len() as int, b.len() as int)
            == Some((b, pre.len() + b.len() as int)),
{
    let s = pre + b + rest;
    assert(s.subrange(pre.len() as int, pre.len() + b.len() as int) =~= b);
}

pub proof fn lemma_parse_var_bytes_round(pre: Seq<u8>, b: Seq<u8>, rest: Seq<u8>)
    requires
        b.len() <= u32::MAX,
    ensures
        parse_var_bytes(pre + spec_var_bytes(b) + rest, pre.len() as int)
            == Some((b, pre.len() + spec_var_bytes(b).len() as int)),
{
    let n = spec_varint_bytes(b.len() as u64);
    assert(pre + spec_var_bytes(b) + rest =~= pre + n + (b + rest));
    lemma_parse_varint32_round(pre, b.len() as u64, b + rest);
    assert(pre + n + (b + rest) =~= (pre + n) + b + rest);
    lemma_parse_bytes_round(pre + n, b, rest);
}

/// A varint encoding takes between one and nine bytes.
pub proof fn lemma_varint_bytes_len(v: u64)
    ensures
        1 <= spec_varint_bytes(v).len() <= 9,
{
    lemma_auto_spec_u16_to_from_le_bytes();
    lemma_auto_spec_u32_to_from_le_bytes();
    lemma_auto_spec_u64_to_from_le_bytes();
}

// ------------------------------------------------------------------
// Errors
// ------------------------------------------------------------------

/// Errors that can occur in `BufferReader`.
#[derive(Debug, Clone, Copy, PartialEq, Eq, Structural)]
pub enum BufferReaderError {
    /// A 32-bit bounded varint read met the 64-bit (255) prefix.
    ValueFoundExceedsU32,
    /// A read would pass the end of the buffer.
    EndOfBuffer,
}

// ------------------------------------------------------------------
// Writer
// ------------------------------------------------------------------

/// An append-only writer that accumulates the canonical encoding in a byte
/// vector and exposes it as a snapshot.
pub struct BufferWriter {
    content: Vec<u8>,
}

impl View for BufferWriter {
    type V = Seq<u8>;

    closed spec fn view(&self) -> Seq<u8> {
        self.content@
    }
}

impl BufferWriter {
    /// Creates a new, empty `BufferWriter`.
    pub fn new() -> (w: Self)
        ensures
            w@ == Seq::<u8>::empty(),
    {
        BufferWriter { content: Vec::new() }
    }

    /// Writes an unsigned 8-bit integer to the buffer.
    pub fn put_u8(&mut self, i: u8)
        ensures
            final(self)@ == old(self)@ + seq![i],
    {
        self.content.push(i);
    }

    /// Writes an unsigned 16-bit integer (little-endian) to the buffer.
    pub fn put_u16(&mut self, i: u16)
        ensures
            final(self)@ == old(self)@ + spec_u16_to_le_bytes(i),
    {
        let mut b = u16_to_le_bytes(i);
        self.content.append(&mut b);
    }

    /// Writes an unsigned 32-bit integer (little-endian) to the buffer.
    pub fn put_u32(&mut self, i: u32)
        ensures
            final(self)@ == old(self)@ + spec_u32_to_le_bytes(i),
    {
        let mut b = u32_to_le_bytes(i);
        self.content.append(&mut b);
    }

    /// Writes an unsigned 64-bit integer (little-endian) to the buffer.
    pub fn put_u64(&mut self, i: u64)
        ensures
            final(self)@ == old(self)@ + spec_u64_to_le_bytes(i),
    {
        let mut b = u64_to_le_bytes(i);
        self.content.append(&mut b);
    }

    /// Writes a variable-length `u64` to the buffer.
    pub fn put_var_u64(&mut self, i: u64)
        ensures
            final(self)@ == old(self)@ + spec_varint_bytes(i),
    {
        if i < 253 {
            self.put_u8(i as u8);
        } else if i <= 0xFFFF {
            self.put_u8(253);
            self.put_u16(i as u16);
        } else if i <= 0xFFFF_FFFF {
            self.put_u8(254);
            self.put_u32(i as u32);
        } else {
            self.put_u8(255);
            self.put_u64(i);
        }
        assert(final(self)@ =~= old(self)@ + spec_varint_bytes(i));
    }

    /// Writes a variable-length `u32` to the buffer; the encoding is the one
    /// of the same value as a `u64`.
    pub fn put_var_u32(&mut self, i: u32)
        ensures
            final(self)@ == old(self)@ + spec_varint_bytes(i as u64),
    {
        self.put_var_u64(i as u64);
    }

    /// Writes raw bytes to the buffer.
    pub fn put_bytes(&mut self, buf: &[u8])
        ensures
            final(self)@ == old(self)@ + buf@,
    {
        let mut b = slice_to_vec(buf);
        self.content.append(&mut b);
    }

    /// Writes a length-prefixed blob: the varint of the length, then the
    /// bytes themselves.
    pub fn put_var_bytes(&mut self, buf: &[u8])
        requires
            buf@.len() <= u32::MAX,
        ensures
            final(self)@ == old(self)@ + spec_var_bytes(buf@),
    {
        self.put_var_u64(buf.len() as u64);
        self.put_bytes(buf);
        assert(final(self)@ =~= old(self)@ + spec_var_bytes(buf@));
    }

    /// Writes a hash to the buffer as a raw 32-byte block, never
    /// length-prefixed.
    pub fn put_hash(&mut self, h: &crate::hash::Hash)
        ensures
            final(self)@ == old(self)@ + h@,
    {
        self.put_bytes(h.as_bytes());
    }

    /// Returns a copy of the current buffer content. The snapshot does not
    /// alias the writer's own buffer.
    pub fn get_bytes(&self) -> (r: Vec<u8>)
        ensures
            r@ == self@,
    {
        clone_bytes(&self.content)
    }
}

impl Clone for BufferWriter {
    /// The clone holds the same accumulated bytes in a buffer of its own:
    /// writing to it never touches the original.
    fn clone(&self) -> (r: Self)
        ensures
            r@ == self@,
    {
        BufferWriter { content: clone_bytes(&self.content) }
    }
}

/// Copies a byte vector; the copy holds exactly the same bytes.
pub fn clone_bytes(v: &Vec<u8>) -> (r: Vec<u8>)
    ensures
        r@ == v@,
{
    let r = v.clone();
    proof {
        assert(r@ =~= v@);
    }
    r
}

// ------------------------------------------------------------------
// Reader
// ------------------------------------------------------------------

/// A reader for sequentially extracting data from a byte buffer. Reading
/// past the end of the buffer is an error, never a panic.
pub struct BufferReader {
    content: Vec<u8>,
    counter: usize,
}

impl BufferReader {
    #[verifier::type_invariant]
    spec fn type_inv(self) -> bool {
        self.counter <= self.content@.len()
    }

    /// The bytes the reader was created over.
    pub closed spec fn buf(&self) -> Seq<u8> {
        self.content@
    }

    /// The current read position.
    pub closed spec fn pos(&self) -> int {
        self.counter as int
    }

    /// Creates a new `BufferReader` over the provided content.
    pub fn new(content: Vec<u8>) -> (r: Self)
        ensures
            r.buf() == content@,
            r.pos() == 0,
    {
        BufferReader { content, counter: 0 }
    }

    /// Returns the current read position in the buffer.
    pub fn get_counter(&self) -> (r: u64)
        ensures
            r == self.pos(),
    {
        proof {
            use_type_invariant(self);
        }
        self.counter as u64
    }

    /// Reads an exact number of bytes, advancing the position; fails with
    /// `EndOfBuffer`, leaving the position unchanged, when fewer remain.
    fn read_exact(&mut self, length: usize) -> (r: Result<&[u8], BufferReaderError>)
        ensures
            final(self).buf() == old(self).buf(),
            match r {
                Ok(b) => {
                    &&& parse_bytes(old(self).buf(), old(self).pos(), length as int)
                        == Some((b@, final(self).pos()))
                    &&& final(self).pos() == old(self).pos() + length
                },
                Err(e) => {
                    &&& e is EndOfBuffer
                    &&& parse_bytes(old(self).buf(), old(self).pos(), length as int) is None
                    &&& final(self).pos() == old(self).pos()
                },
            },
    {
        proof {
            use_type_invariant(&*self);
        }
        if length > self.content.len() - self.counter {
            return Err(BufferReaderError::EndOfBuffer);
        }
        let start = self.counter;
        self.counter = self.counter + length;
        Ok(slice_subrange(self.content.as_slice(), start, start + length))
    }

    /// Reads a `u8` from the buffer.
    pub fn get_u8(&mut self) -> (r: Result<u8, BufferReaderError>)
        ensures
            final(self).buf() == old(self).buf(),
            match r {
                Ok(v) => parse_u8(old(self).buf(), old(self).pos())
                    == Some((v, final(self).pos())),
                Err(e) => {
                    &&& e is EndOfBuffer
                    &&& parse_u8(old(self).buf(), old(self).pos()) is None
                    &&& final(self).pos() == old(self).pos()
                },
            },
    {
        let ghost s = self.buf();
        let ghost i = self.pos();
        match self.read_exact(1) {
            Ok(b) => {
                assert(b@ == s.subrange(i, i + 1));
                assert(b@[0] == s[i]);
                Ok(b[0])
            },
            Err(e) => Err(e),
        }
    }

    /// Reads a `u16` (little-endian) from the buffer.
    pub fn get_u16(&mut self) -> (r: Result<u16, BufferReaderError>)
        ensures
            final(self).buf() == old(self).buf(),
            match r {
                Ok(v) => parse_u16(old(self).buf(), old(self).pos())
                    == Some((v, final(self).pos())),
                Err(e) => {
                    &&& e is EndOfBuffer
                    &&& parse_u16(old(self).buf(), old(self).pos()) is None
                    &&& final(self).pos() == old(self).pos()
                },
            },
    {
        match self.read_exact(2) {
            Ok(b) => Ok(u16_from_le_bytes(b)),
            Err(e) => Err(e),
        }
    }

    /// Reads a `u32` (little-endian) from the buffer.
    pub fn get_u32(&mut self) -> (r: Result<u32, BufferReaderError>)
        ensures
            final(self).buf() == old(self).buf(),
            match r {
                Ok(v) => parse_u32(old(self).buf(), old(self).pos())
                    == Some((v, final(self).pos())),
                Err(e) => {
                    &&& e is EndOfBuffer
                    &&& parse_u32(old(self).buf(), old(self).pos()) is None
                    &&& final(self).pos() == old(self).pos()
                },
            },
    {
        match self.read_exact(4) {
            Ok(b) => Ok(u32_from_le_bytes(b)),
            Err(e) => Err(e),
        }
    }

    /// Reads a `u64` (little-endian) from the buffer.
    pub fn get_u64(&mut self) -> (r: Result<u64, BufferReaderError>)
        ensures
            final(self).buf() == old(self).buf(),
            match r {
                Ok(v) => parse_u64(old(self).buf(), old(self).pos())
                    == Some((v, final(self).pos())),
                Err(e) => {
                    &&& e is EndOfBuffer
                    &&& parse_u64(old(self).buf(), old(self).pos()) is None
                    &&& final(self).pos() == old(self).pos()
                },
            },
    {
        match self.read_exact(8) {
            Ok(b) => Ok(u64_from_le_bytes(b)),
            Err(e) => Err(e),
        }
    }

    /// Reads a variable-length `u64` from the buffer.
    pub fn get_var_u64(&mut self) -> (r: Result<u64, BufferReaderError>)
        ensures
            final(self).buf() == old(self).buf(),
            match r {
                Ok(v) => parse_varint(old(self).buf(), old(self).pos())
                    == Some((v, final(self).pos())),
                Err(e) => {
                    &&& e is EndOfBuffer
                    &&& parse_varint(old(self).buf(), old(self).pos()) is None
                },
            },
    {
        let i = self.get_u8()?;
        if i < 253 {
            Ok(i as u64)
        } else if i == 253 {
            match self.get_u16() {
                Ok(v) => Ok(v as u64),
                Err(e) => Err(e),
            }
        } else if i == 254 {
            match self.get_u32() {
                Ok(v) => Ok(v as u64),
                Err(e) => Err(e),
            }
        } else {
            self.get_u64()
        }
    }

    /// Reads a variable-length integer bounded to 32 bits; the 255 prefix is
    /// rejected as "value exceeds 32 bits".
    pub fn get_var_u32(&mut self) -> (r: Result<u32, BufferReaderError>)
        ensures
            final(self).buf() == old(self).buf(),
            match r {
                Ok(v) => parse_varint32(old(self).buf(), old(self).pos())
                    == Some((v, final(self).pos())),
                Err(e) => {
                    &&& parse_varint32(old(self).buf(), old(self).pos()) is None
                    &&& (e is ValueFoundExceedsU32
                        <==> varint32_prefix_overflows(old(self).buf(), old(self).pos()))
                },
            },
    {
        let i = self.get_u8()?;
        if i < 253 {
            Ok(i as u32)
        } else if i == 253 {
            match self.get_u16() {
                Ok(v) => Ok(v as u32),
                Err(e) => Err(e),
            }
        } else if i == 254 {
            self.get_u32()
        } else {
            Err(BufferReaderError::ValueFoundExceedsU32)
        }
    }

    /// Reads a sequence of bytes of the given length from the buffer.
    pub fn get_bytes(&mut self, length: u32) -> (r: Result<Vec<u8>, BufferReaderError>)
        ensures
            final(self).buf() == old(self).buf(),
            match r {
                Ok(b) => parse_bytes(old(self).buf(), old(self).pos(), length as int)
                    == Some((b@, final(self).pos())),
                Err(e) => {
                    &&& e is EndOfBuffer
                    &&& parse_bytes(old(self).buf(), old(self).pos(), length as int) is None
                    &&& final(self).pos() == old(self).pos()
                },
            },
    {
        match self.read_exact(length as usize) {
            Ok(b) => Ok(slice_to_vec(b)),
            Err(e) => Err(e),
        }
    }

    /// Reads a length-prefixed blob: a 32-bit bounded varint length followed
    /// by that many raw bytes.
    pub fn get_var_bytes(&mut self) -> (r: Result<Vec<u8>, BufferReaderError>)
        ensures
            final(self).buf() == old(self).buf(),
            match r {
                Ok(b) => parse_var_bytes(old(self).buf(), old(self).pos())
                    == Some((b@, final(self).pos())),
                Err(e) => parse_var_bytes(old(self).buf(), old(self).pos()) is None,
            },
    {
        let tmp_length = self.get_var_u32()?;
        self.get_bytes(tmp_length)
    }

    /// Reads a raw 32-byte hash block from the buffer.
    pub fn get_hash(&mut self) -> (r: Result<crate::hash::Hash, BufferReaderError>)
        ensures
            final(self).buf() == old(self).buf(),
            match r {
                Ok(h) => parse_hash(old(self).buf(), old(self).pos())
                    == Some((h@, final(self).pos())),
                Err(e) => {
                    &&& e is EndOfBuffer
                    &&& parse_hash(old(self).buf(), old(self).pos()) is None
                    &&& final(self).pos() == old(self).pos()
                },
            },
    {
        let bytes = self.get_hash_bytes()?;
        match crate::hash::Hash::from_bytes(bytes.as_slice()) {
            Ok(h) => Ok(h),
            Err(_) => Err(BufferReaderError::EndOfBuffer),
        }
    }

    /// Reads a raw 32-byte block from the buffer.
    fn get_hash_bytes(&mut self) -> (r: Result<Vec<u8>, BufferReaderError>)
        ensures
            final(self).buf() == old(self).buf(),
            match r {
                Ok(b) => {
                    &&& parse_hash(old(self).buf(), old(self).pos())
                        == Some((b@, final(self).pos()))
                    &&& b@.len() == HASH_SIZE
                },
                Err(e) => {
                    &&& e is EndOfBuffer
                    &&& parse_hash(old(self).buf(), old(self).pos()) is None
                    &&& final(self).pos() == old(self).pos()
                },
            },
    {
        self.get_bytes(HASH_SIZE as u32)
    }
}

} // verus!

//! The 32-bit compact encoding of a proof-of-work target: an 8-bit exponent
//! in bits 24 to 31 and a 24-bit mantissa in bits 0 to 23. Decoding shifts
//! the mantissa by whole bytes; encoding right-shifts the value byte by byte
//! until the remainder fits in 24 bits.

use vstd::prelude::*;

verus! {

use crate::bigint::le_val;
use crate::bigint::pow256;
use crate::bigint::byte_at;
use crate::bigint::eff_len;
use crate::bigint::effective_len;
use crate::bigint::lemma_pow256_pos;
use crate::bigint::lemma_le_val_nonneg;
use crate::bigint::lemma_le_val_bound;
use crate::bigint::lemma_le_val_split;
use crate::bigint::lemma_le_val_zeros;
use crate::bigint::lemma_eff_len_val;
use crate::bigint::lemma_eff_len_bounds;

/// The mantissa packed in the low 24 bits.
pub open spec fn compact_mantissa(c: u32) -> u32 {
    c & 0xFF_FFFF
}

/// The exponent packed in the high 8 bits.
pub open spec fn compact_exponent(c: u32) -> u32 {
    c >> 24
}

/// The target value a compact form denotes: the mantissa shifted left by
/// `exponent - 3` bytes, or right by `3 - exponent` bytes for exponents
/// below three.
pub open spec fn compact_val(c: u32) -> int {
    let m = compact_mantissa(c) as int;
    let e = compact_exponent(c) as int;
    if e > 3 {
        m * pow256((e - 3) as nat)
    } else {
        m / pow256((3 - e) as nat)
    }
}

/// The number of base-256 digits of a non-negative integer.
pub open spec fn byte_len(v: int) -> nat
    decreases v, when v >= 0 via byte_len_dec
{
    if v <= 0 {
        0
    } else {
        1 + byte_len(v / 256)
    }
}

#[via_fn]
proof fn byte_len_dec(v: int) {
    if v > 0 {
        vstd::arithmetic::div_mod::lemma_div_is_strictly_smaller(v, 256);
        vstd::arithmetic::div_mod::lemma_div_pos_is_pos(v, 256);
    }
}

/// The compact form of a target value: the exponent counts the value's
/// bytes (never below three), and the mantissa holds its top three bytes.
pub open spec fn compact_of(v: int) -> u32 {
    if byte_len(v) <= 3 {
        (3 * 0x100_0000 + v) as u32
    } else {
        (byte_len(v) * 0x100_0000 + v / pow256((byte_len(v) - 3) as nat)) as u32
    }
}

/// A value that some compact form denotes exactly: a 24-bit mantissa at a
/// whole-byte position, with nothing below it.
pub open spec fn normalized_target(v: int) -> bool {
    exists|m: int, k: nat| 0 <= m < 0x100_0000 && v == #[trigger] (m * pow256(k))
}

/// A compact form that encoding its own value reproduces: the exponent is at
/// least three and, above three, the mantissa's top byte is in use.
pub open spec fn canonical_compact(c: u32) -> bool {
    let e = compact_exponent(c) as int;
    let m = compact_mantissa(c) as int;
    e == 3 || (e > 3 && m >= 0x1_0000)
}

// ------------------------------------------------------------------
// Supporting lemmas
// ------------------------------------------------------------------

pub proof fn lemma_pow256_adds(a: nat, b: nat)
    ensures
        pow256(a + b) == pow256(a) * pow256(b),
    decreases a,
{
    if a == 0 {
        assert(pow256(b) == 1 * pow256(b)) by (nonlinear_arith);
    } else {
        lemma_pow256_adds((a - 1) as nat, b);
        assert(pow256((a - 1 + b) as nat) == pow256((a - 1) as nat) * pow256(b));
        assert(pow256(a + b) == 256 * (pow256((a - 1) as nat) * pow256(b)));
        assert(256 * (pow256((a - 1) as nat) * pow256(b))
            == (256 * pow256((a - 1) as nat)) * pow256(b)) by (nonlinear_arith);
    }
}

pub proof fn lemma_pow256_increases(a: nat, b: nat)
    requires
        a <= b,
    ensures
        pow256(a) <= pow256(b),
    decreases b,
{
    if a < b {
        lemma_pow256_increases(a, (b - 1) as nat);
        lemma_pow256_pos((b - 1) as nat);
    }
}

proof fn lemma_pow256_small()
    ensures
        pow256(0) == 1,
        pow256(1) == 256,
        pow256(2) == 0x1_0000,
        pow256(3) == 0x100_0000,
{
    assert(pow256(1) == 256 * pow256(0));
    assert(pow256(2) == 256 * pow256(1));
    assert(pow256(3) == 256 * pow256(2));
}

/// The base-256 digit count of a value bracketed by two powers.
proof fn lemma_byte_len_range(v: int, e: nat)
    requires
        e >= 1,
        pow256((e - 1) as nat) <= v < pow256(e),
    ensures
        byte_len(v) == e,
    decreases e,
{
    lemma_pow256_pos((e - 1) as nat);
    if e == 1 {
        assert(byte_len(v) == 1 + byte_len(v / 256));
        assert(0 <= v / 256 < 1) by (nonlinear_arith)
            requires
                1 <= v < 256,
        ;
    } else {
        assert(pow256((e - 1) as nat) == 256 * pow256((e - 2) as nat));
        assert(pow256((e - 2) as nat) <= v / 256 < pow256((e - 1) as nat)) by (nonlinear_arith)
            requires
                256 * pow256((e - 2) as nat) <= v < 256 * pow256((e - 1) as nat),
                pow256((e - 2) as nat) >= 0,
        ;
        lemma_pow256_pos((e - 2) as nat);
        lemma_byte_len_range(v / 256, (e - 1) as nat);
    }
}

/// A positive value lies between the powers its digit count dictates.
proof fn lemma_byte_len_bounds(v: int)
    requires
        v > 0,
    ensures
        byte_len(v) >= 1,
        pow256((byte_len(v) - 1) as nat) <= v < pow256(byte_len(v)),
    decreases v,
{
    vstd::arithmetic::div_mod::lemma_fundamental_div_mod(v, 256);
    if v / 256 > 0 {
        lemma_byte_len_bounds(v / 256);
        let e = byte_len(v / 256);
        assert(byte_len(v) == e + 1);
        assert(pow256(e) == 256 * pow256((e - 1) as nat));
        assert(pow256((e + 1) as nat) == 256 * pow256(e));
        assert(256 * pow256((e - 1) as nat) <= v && v < 256 * pow256(e)) by (nonlinear_arith)
            requires
                pow256((e - 1) as nat) <= v / 256 < pow256(e),
                v == 256 * (v / 256) + v % 256,
                0 <= v % 256 < 256,
        ;
    } else {
        assert(byte_len(v) == 1 + byte_len(v / 256));
        assert(v < 256) by (nonlinear_arith)
            requires
                v / 256 == 0,
                v == 256 * (v / 256) + v % 256,
                0 <= v % 256 < 256,
        ;
        assert(pow256(1) == 256 * pow256(0));
    }
}

/// The value of a byte sequence of length at most three, by its digits.
proof fn lemma_le_val_small(s: Seq<u8>)
    requires
        s.len() <= 3,
    ensures
        le_val(s) == byte_at(s, 0) + 256 * (byte_at(s, 1) as int) + 0x1_0000 * (byte_at(s, 2) as int),
    decreases s.len(),
{
    if s.len() > 0 {
        assert(forall|i: int| 0 <= i < s.skip(1).len() ==> s.skip(1)[i] == s[i + 1]);
        lemma_le_val_small(s.skip(1));
    }
}

// ------------------------------------------------------------------
// Decode
// ------------------------------------------------------------------

/// Decode a compact form into the little-endian bytes of the target value
/// it denotes.
pub fn bigint_from_compact(compact: u32) -> (r: Vec<u8>)
    ensures
        le_val(r@) == compact_val(compact),
{
    let m: u32 = compact & 0xFF_FFFF;
    let e: u32 = compact >> 24;
    let m0 = (m & 0xFF) as u8;
    let m1 = ((m >> 8) & 0xFF) as u8;
    let m2 = ((m >> 16) & 0xFF) as u8;
    proof {
        lemma_pow256_small();
        assert(m < 0x100_0000 && e < 256
            && m == (m & 0xFF) + 256 * ((m >> 8) & 0xFF) + 0x1_0000 * ((m >> 16) & 0xFF)
            && (m & 0xFF) < 256 && ((m >> 8) & 0xFF) < 256 && ((m >> 16) & 0xFF) < 256
            && m / 256 == ((m >> 8) & 0xFF) + 256 * ((m >> 16) & 0xFF)
            && m / 0x1_0000 == ((m >> 16) & 0xFF)
            && m / 0x100_0000 == 0) by (bit_vector)
            requires
                m == compact & 0xFF_FFFF,
                e == compact >> 24,
        ;
    }
    if e > 3 {
        let zeros = (e - 3) as usize;
        let mut r: Vec<u8> = vec![0u8; zeros];
        let ghost z = r@;
        r.push(m0);
        r.push(m1);
        r.push(m2);
        proof {
            assert(r@.take(zeros as int) =~= z);
            assert(r@.skip(zeros as int) =~= seq![m0, m1, m2]);
            lemma_le_val_split(r@, zeros as int);
            lemma_le_val_zeros(z);
            lemma_le_val_small(seq![m0, m1, m2]);
            let p = pow256(zeros as nat);
            assert(p * (m0 + 256 * (m1 as int) + 0x1_0000 * (m2 as int)) == (m as int) * p)
                by (nonlinear_arith)
                requires
                    m == m0 + 256 * (m1 as int) + 0x1_0000 * (m2 as int),
            ;
        }
        r
    } else if e == 3 {
        let mut r: Vec<u8> = Vec::new();
        r.push(m0);
        r.push(m1);
        r.push(m2);
        proof {
            assert(r@ =~= seq![m0, m1, m2]);
            lemma_le_val_small(r@);
            assert(compact_val(compact) == (m as int) / 1);
        }
        r
    } else if e == 2 {
        let mut r: Vec<u8> = Vec::new();
        r.push(m1);
        r.push(m2);
        proof {
            assert(r@ =~= seq![m1, m2]);
            lemma_le_val_small(r@);
            assert(compact_val(compact) == (m as int) / 256);
        }
        r
    } else if e == 1 {
        let mut r: Vec<u8> = Vec::new();
        r.push(m2);
        proof {
            assert(r@ =~= seq![m2]);
            lemma_le_val_small(r@);
            assert(compact_val(compact) == (m as int) / 0x1_0000);
        }
        r
    } else {
        let r: Vec<u8> = Vec::new();
        proof {
            assert(r@ =~= Seq::<u8>::empty());
            assert(compact_val(compact) == (m as int) / 0x100_0000);
        }
        r
    }
}

// ------------------------------------------------------------------
// Encode
// ------------------------------------------------------------------

/// Encode the little-endian bytes of a target value into compact form. The
/// value must fit 255 bytes, the widest the 8-bit exponent can state.
pub fn compact_from_bigint(a: &Vec<u8>) -> (r: u32)
    requires
        eff_len(a@) <= 255,
    ensures
        r == compact_of(le_val(a@)),
{
    proof {
        lemma_eff_len_val(a@);
        lemma_eff_len_bounds(a@);
        lemma_le_val_nonneg(a@);
        lemma_pow256_small();
    }
    let n = effective_len(a);
    let ghost v = le_val(a@);
    if n <= 3 {
        let v0: u32 = if n > 0 { a[0] as u32 } else { 0 };
        let v1: u32 = if n > 1 { a[1] as u32 } else { 0 };
        let v2: u32 = if n > 2 { a[2] as u32 } else { 0 };
        let m = v0 + v1 * 256 + v2 * 0x1_0000;
        proof {
            lemma_le_val_small(a@.take(n as int));
            assert(forall|i: int| 0 <= i < n ==> a@.take(n as int)[i] == a@[i]);
            assert(m == v);
            if v > 0 {
                lemma_byte_len_range(v, eff_len(a@));
            }
        }
        0x300_0000 + m
    } else {
        let m = (a[n - 3] as u32) + (a[n - 2] as u32) * 256 + (a[n - 1] as u32) * 0x1_0000;
        proof {
            lemma_byte_len_range(v, n as nat);
            let t = a@.take(n as int);
            lemma_le_val_split(t, n - 3);
            assert(t.skip(n - 3) =~= a@.subrange(n - 3, n as int));
            lemma_le_val_small(a@.subrange(n - 3, n as int));
            assert(m == le_val(a@.subrange(n - 3, n as int)));
            let p = pow256((n - 3) as nat);
            let low = le_val(t.take(n - 3));
            lemma_le_val_nonneg(t.take(n - 3));
            lemma_le_val_bound(t.take(n - 3));
            assert(t.take(n - 3).len() == n - 3);
            assert(v == (m as int) * p + low) by (nonlinear_arith)
                requires
                    v == low + p * m,
            ;
            vstd::arithmetic::div_mod::lemma_fundamental_div_mod_converse_div(
                v, p, m as int, low);
        }
        (n as u32) * 0x100_0000 + m
    }
}

/// The effective byte length of a little-endian vector is the base-256
/// digit count of its value.
pub proof fn lemma_eff_len_is_byte_len(s: Seq<u8>)
    ensures
        byte_len(le_val(s)) == eff_len(s),
{
    lemma_le_val_nonneg(s);
    lemma_eff_len_bounds(s);
    if eff_len(s) == 0 {
        assert(pow256(0) == 1);
        assert(le_val(s) == 0);
        assert(byte_len(0) == 0);
    } else {
        lemma_byte_len_range(le_val(s), eff_len(s));
    }
}

// ------------------------------------------------------------------
// Round trips
// ------------------------------------------------------------------

/// Decoding an encoded value gives the value back, for every value some
/// compact form denotes exactly (a 24-bit mantissa at a whole-byte
/// position) that fits the 8-bit exponent.
pub proof fn lemma_compact_round_trip(v: int)
    requires
        normalized_target(v),
        0 <= v < pow256(255),
    ensures
        compact_val(compact_of(v)) == v,
{
    lemma_pow256_small();
    let (m, k): (int, nat) = choose|m: int, k: nat|
        0 <= m < 0x100_0000 && v == #[trigger] (m * pow256(k));
    lemma_pow256_pos(k);
    let n = byte_len(v);
    if n <= 3 {
        assert(v < 0x100_0000) by {
            if v > 0 {
                lemma_byte_len_bounds(v);
                lemma_pow256_increases(n, 3);
            }
        }
        let cv = compact_of(v);
        let vv = v as u32;
        assert(cv == 0x300_0000 + vv);
        assert(compact_exponent(cv) == 3 && compact_mantissa(cv) == vv) by (bit_vector)
            requires
                cv == 0x300_0000 + vv,
                vv < 0x100_0000,
        ;
        assert(compact_val(cv) == v);
    } else {
        assert(v > 0) by {
            if v == 0 {
                assert(byte_len(0) == 0);
            }
        }
        lemma_byte_len_bounds(v);
        // The low `n - 3` bytes of `v` are zero: `pow256(n - 3)` divides it.
        assert(v < pow256(k + 3)) by {
            lemma_pow256_adds(k, 3);
            assert(m * pow256(k) < 0x100_0000 * pow256(k)) by (nonlinear_arith)
                requires
                    m < 0x100_0000,
                    pow256(k) >= 1,
            ;
            assert(0x100_0000 * pow256(k) == pow256(k) * 0x100_0000) by (nonlinear_arith);
        }
        assert(n <= k + 3) by {
            if n > k + 3 {
                lemma_pow256_increases((k + 3) as nat, (n - 1) as nat);
            }
        }
        let q = m * pow256((k - (n - 3)) as nat);
        assert(v == q * pow256((n - 3) as nat) + 0) by {
            lemma_pow256_adds((k - (n - 3)) as nat, (n - 3) as nat);
            assert((m * pow256((k - (n - 3)) as nat)) * pow256((n - 3) as nat)
                == m * (pow256((k - (n - 3)) as nat) * pow256((n - 3) as nat)))
                by (nonlinear_arith);
        }
        lemma_pow256_pos((n - 3) as nat);
        lemma_pow256_pos((k - (n - 3)) as nat);
        assert(q >= 0) by (nonlinear_arith)
            requires
                m >= 0,
                pow256((k - (n - 3)) as nat) >= 1,
                q == m * pow256((k - (n - 3)) as nat),
        ;
        vstd::arithmetic::div_mod::lemma_fundamental_div_mod_converse_div(
            v, pow256((n - 3) as nat), q, 0);
        assert(q == v / pow256((n - 3) as nat));
        assert(q < 0x100_0000) by {
            lemma_pow256_adds((n - 3) as nat, 3);
            assert(q * pow256((n - 3) as nat) < pow256((n - 3) as nat) * 0x100_0000);
            assert(q < 0x100_0000) by (nonlinear_arith)
                requires
                    q * pow256((n - 3) as nat) < pow256((n - 3) as nat) * 0x100_0000,
                    pow256((n - 3) as nat) >= 1,
            ;
        }
        assert(n <= 255) by {
            if n > 255 {
                lemma_pow256_increases(255, (n - 1) as nat);
            }
        }
        let cv = compact_of(v);
        let nn = n as u32;
        let qq = q as u32;
        assert(cv == nn * 0x100_0000 + qq);
        assert(compact_exponent(cv) == nn && compact_mantissa(cv) == qq) by (bit_vector)
            requires
                cv == nn * 0x100_0000 + qq,
                qq < 0x100_0000,
                3 < nn <= 255,
        ;
        assert(compact_val(cv) == q * pow256((n - 3) as nat));
    }
}

/// Encoding a canonical compact form's own value gives the form back: the
/// identity behind an unchanged difficulty at an ideal retarget boundary.
pub proof fn lemma_compact_encode_of_val(c: u32)
    requires
        canonical_compact(c),
    ensures
        compact_of(compact_val(c)) == c,
{
    lemma_pow256_small();
    let m = compact_mantissa(c);
    let e = compact_exponent(c);
    assert(m < 0x100_0000 && e < 256) by (bit_vector)
        requires
            m == c & 0xFF_FFFF,
            e == c >> 24,
    ;
    if e == 3 {
        let v = compact_val(c);
        assert(v == m);
        if v > 0 {
            lemma_byte_len_bounds(v);
            if byte_len(v) > 3 {
                lemma_pow256_increases(3, (byte_len(v) - 1) as nat);
            }
        }
        assert(compact_of(v) == (3 * 0x100_0000 + v) as u32);
        assert(c == 0x300_0000 + m) by (bit_vector)
            requires
                m == c & 0xFF_FFFF,
                c >> 24 == 3,
        ;
    } else {
        let v = compact_val(c);
        assert(v == (m as int) * pow256((e - 3) as nat));
        lemma_pow256_pos((e - 3) as nat);
        assert(v >= 0x1_0000 * pow256((e - 3) as nat)) by (nonlinear_arith)
            requires
                m >= 0x1_0000,
                pow256((e - 3) as nat) >= 1,
                v == (m as int) * pow256((e - 3) as nat),
        ;
        assert(v < 0x100_0000 * pow256((e - 3) as nat)) by (nonlinear_arith)
            requires
                m < 0x100_0000,
                pow256((e - 3) as nat) >= 1,
                v == (m as int) * pow256((e - 3) as nat),
        ;
        lemma_pow256_adds(2, (e - 3) as nat);
        lemma_pow256_adds(3, (e - 3) as nat);
        lemma_byte_len_range(v, e as nat);
        vstd::arithmetic::div_mod::lemma_fundamental_div_mod_converse_div(
            v, pow256((e - 3) as nat), m as int, 0);
        assert(v / pow256((e - 3) as nat) == m);
        assert(compact_of(v) == ((e as int) * 0x100_0000 + m) as u32);
        assert(c == e * 0x100_0000 + m) by (bit_vector)
            requires
                m == c & 0xFF_FFFF,
                e == c >> 24,
        ;
    }
}

} // verus!

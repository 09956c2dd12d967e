//! Arbitrary-precision unsigned integers, held as little-endian byte
//! vectors: the value specification, comparison, multiplication and division
//! by a machine word, and the conversions the compact-target arithmetic and
//! the difficulty retarget are built on.

use vstd::prelude::*;

verus! {

/// 256 raised to a power: the place value of the byte at index `k`.
pub open spec fn pow256(k: nat) -> int
    decreases k,
{
    if k == 0 {
        1
    } else {
        256 * pow256((k - 1) as nat)
    }
}

/// The integer value of a little-endian byte sequence.
pub open spec fn le_val(s: Seq<u8>) -> int
    decreases s.len(),
{
    if s.len() == 0 {
        0
    } else {
        s[0] + 256 * le_val(s.skip(1))
    }
}

pub proof fn lemma_pow256_pos(k: nat)
    ensures
        pow256(k) >= 1,
    decreases k,
{
    if k > 0 {
        lemma_pow256_pos((k - 1) as nat);
    }
}

pub proof fn lemma_le_val_nonneg(s: Seq<u8>)
    ensures
        le_val(s) >= 0,
    decreases s.len(),
{
    if s.len() > 0 {
        lemma_le_val_nonneg(s.skip(1));
    }
}

pub proof fn lemma_le_val_bound(s: Seq<u8>)
    ensures
        le_val(s) < pow256(s.len()),
    decreases s.len(),
{
    if s.len() > 0 {
        lemma_le_val_bound(s.skip(1));
    }
}

/// Splitting a byte sequence at `k` splits its value at place `k`.
pub proof fn lemma_le_val_split(s: Seq<u8>, k: int)
    requires
        0 <= k <= s.len(),
    ensures
        le_val(s) == le_val(s.take(k)) + pow256(k as nat) * le_val(s.skip(k)),
    decreases k,
{
    if k == 0 {
        assert(s.take(0) =~= Seq::<u8>::empty());
        assert(s.skip(0) =~= s);
    } else {
        lemma_le_val_split(s.skip(1), k - 1);
        assert(s.skip(1).take(k - 1) =~= s.take(k).skip(1));
        assert(s.skip(1).skip(k - 1) =~= s.skip(k));
        assert(s.take(k).len() == k && s.take(k)[0] == s[0]);
        let a = le_val(s.skip(1).take(k - 1));
        let b = le_val(s.skip(k));
        let p = pow256((k - 1) as nat);
        assert(le_val(s) == s[0] + 256 * (a + p * b));
        assert(le_val(s.take(k)) == s[0] + 256 * a);
        assert(256 * (a + p * b) == 256 * a + (256 * p) * b) by (nonlinear_arith);
    }
}

/// Appending one byte adds its place value.
pub proof fn lemma_le_val_snoc(s: Seq<u8>, b: u8)
    ensures
        le_val(s.push(b)) == le_val(s) + pow256(s.len()) * b,
{
    let t = s.push(b);
    lemma_le_val_split(t, s.len() as int);
    assert(t.take(s.len() as int) =~= s);
    assert(t.skip(s.len() as int) =~= seq![b]);
    assert(le_val(seq![b]) == b + 256 * le_val(seq![b].skip(1)));
    assert(seq![b].skip(1) =~= Seq::<u8>::empty());
}

/// A sequence of zero bytes has value zero.
pub proof fn lemma_le_val_zeros(s: Seq<u8>)
    requires
        forall|i: int| 0 <= i < s.len() ==> s[i] == 0,
    ensures
        le_val(s) == 0,
    decreases s.len(),
{
    if s.len() > 0 {
        lemma_le_val_zeros(s.skip(1));
    }
}

/// The byte at index `i`, counting absent high bytes as zero.
pub open spec fn byte_at(s: Seq<u8>, i: int) -> u8 {
    if 0 <= i < s.len() {
        s[i]
    } else {
        0
    }
}

/// The value only depends on the bytes with absent high bytes as zero:
/// padding with zero bytes up to `n` keeps the value.
pub proof fn lemma_le_val_pad(s: Seq<u8>, n: int)
    requires
        s.len() <= n,
    ensures
        le_val(Seq::new(n as nat, |i: int| byte_at(s, i))) == le_val(s),
{
    let p = Seq::new(n as nat, |i: int| byte_at(s, i));
    lemma_le_val_split(p, s.len() as int);
    assert(p.take(s.len() as int) =~= s);
    lemma_le_val_zeros(p.skip(s.len() as int));
    assert(pow256(s.len()) * 0 == 0);
}

/// With the high bytes from `i + 1` up equal, a smaller byte at `i` makes a
/// strictly smaller value.
proof fn lemma_le_val_lt_at(x: Seq<u8>, y: Seq<u8>, i: int)
    requires
        x.len() == y.len(),
        0 <= i < x.len(),
        x[i] < y[i],
        forall|j: int| i < j < x.len() ==> x[j] == y[j],
    ensures
        le_val(x) < le_val(y),
{
    let n = x.len() as int;
    lemma_le_val_split(x, i + 1);
    lemma_le_val_split(y, i + 1);
    assert(x.skip(i + 1) =~= y.skip(i + 1));
    assert(x.take(i + 1) =~= x.take(i).push(x[i]));
    assert(y.take(i + 1) =~= y.take(i).push(y[i]));
    lemma_le_val_snoc(x.take(i), x[i]);
    lemma_le_val_snoc(y.take(i), y[i]);
    lemma_le_val_bound(x.take(i));
    lemma_le_val_nonneg(y.take(i));
    let p = pow256(i as nat);
    lemma_pow256_pos(i as nat);
    assert(x.take(i).len() == i && y.take(i).len() == i);
    assert(p * x[i] + p <= p * y[i]) by (nonlinear_arith)
        requires
            p >= 1,
            x[i] < y[i],
    ;
    let q = pow256((i + 1) as nat);
    lemma_pow256_pos((i + 1) as nat);
    lemma_le_val_nonneg(x.skip(i + 1));
    assert(q * le_val(x.skip(i + 1)) == q * le_val(y.skip(i + 1)));
}

/// Compares the values of two little-endian byte vectors; the vectors may
/// carry any number of high zero bytes.
pub fn le_bytes_lt(a: &Vec<u8>, b: &Vec<u8>) -> (r: bool)
    ensures
        r == (le_val(a@) < le_val(b@)),
{
    let n = if a.len() > b.len() {
        a.len()
    } else {
        b.len()
    };
    let ghost pa = Seq::new(n as nat, |i: int| byte_at(a@, i));
    let ghost pb = Seq::new(n as nat, |i: int| byte_at(b@, i));
    proof {
        lemma_le_val_pad(a@, n as int);
        lemma_le_val_pad(b@, n as int);
    }
    let mut i: usize = n;
    while i > 0
        invariant
            i <= n,
            n == if a@.len() > b@.len() { a@.len() } else { b@.len() },
            pa == Seq::new(n as nat, |k: int| byte_at(a@, k)),
            pb == Seq::new(n as nat, |k: int| byte_at(b@, k)),
            le_val(pa) == le_val(a@),
            le_val(pb) == le_val(b@),
            forall|j: int| i <= j < n ==> pa[j] == pb[j],
        decreases i,
    {
        i = i - 1;
        let av = if i < a.len() { a[i] } else { 0 };
        let bv = if i < b.len() { b[i] } else { 0 };
        if av < bv {
            proof {
                lemma_le_val_lt_at(pa, pb, i as int);
            }
            return true;
        }
        if av > bv {
            proof {
                lemma_le_val_lt_at(pb, pa, i as int);
            }
            return false;
        }
    }
    proof {
        assert(pa =~= pb);
    }
    false
}

/// The little-endian bytes of a 64-bit integer, without high zero bytes.
pub fn bigint_from_u64(value: u64) -> (r: Vec<u8>)
    ensures
        le_val(r@) == value,
{
    let mut r: Vec<u8> = Vec::new();
    let mut v = value;
    proof {
        assert(r@ =~= Seq::<u8>::empty());
        assert(le_val(r@) == 0);
        assert(pow256(r@.len()) == 1);
    }
    while v > 0
        invariant
            le_val(r@) + pow256(r@.len()) * v == value,
            pow256(r@.len()) >= 1,
        decreases v,
    {
        let ghost r0 = r@;
        let ghost v0 = v as int;
        let b = (v % 256) as u8;
        r.push(b);
        v = v / 256;
        proof {
            lemma_le_val_snoc(r0, b);
            let p = pow256(r0.len());
            assert(le_val(r@) == le_val(r0) + p * b);
            assert(pow256(r@.len()) == 256 * p);
            assert(p * b + (256 * p) * (v0 / 256) == p * v0) by (nonlinear_arith)
                requires
                    b == v0 % 256,
                    v0 >= 0,
            ;
        }
    }
    proof {
        assert(pow256(r@.len()) * 0 == 0);
    }
    r
}

/// The value of a 32-byte hash read as a little-endian integer: the bytes
/// themselves, unchanged.
pub fn bigint_from_hash(h: &crate::hash::Hash) -> (r: Vec<u8>)
    ensures
        r@ == h@,
        le_val(r@) == le_val(h@),
{
    h.to_vec()
}

/// Multiplies the value by a machine word. The bound on the factor leaves
/// room for the per-byte product and the running carry in 128 bits.
pub fn mul_small(a: &Vec<u8>, m: u128) -> (r: Vec<u8>)
    requires
        m < 0x1_0000_0000_0000_0000_0000_0000_0000,
    ensures
        le_val(r@) == le_val(a@) * m,
{
    let mut r: Vec<u8> = Vec::new();
    let mut carry: u128 = 0;
    let mut i: usize = 0;
    proof {
        assert(r@ =~= Seq::<u8>::empty());
        assert(a@.take(0) =~= Seq::<u8>::empty());
        assert(pow256(0) * 0 == 0);
        assert(le_val(Seq::<u8>::empty()) * m == 0) by (nonlinear_arith);
    }
    while i < a.len()
        invariant
            i <= a@.len(),
            r@.len() == i,
            carry <= m,
            m < 0x1_0000_0000_0000_0000_0000_0000_0000,
            le_val(r@) + pow256(i as nat) * carry == le_val(a@.take(i as int)) * m,
        decreases a@.len() - i,
    {
        let ghost r0 = r@;
        let ghost c0 = carry as int;
        let ghost t0 = le_val(a@.take(i as int));
        let ai = a[i];
        proof {
            assert((ai as int) * m + c0 <= 256 * m) by (nonlinear_arith)
                requires
                    ai <= 255,
                    0 <= c0 <= m,
                    m >= 0,
            ;
        }
        let x = (ai as u128) * m + carry;
        let b = (x % 256) as u8;
        r.push(b);
        carry = x / 256;
        proof {
            assert(carry <= m) by (nonlinear_arith)
                requires
                    carry == (x as int) / 256,
                    x <= 256 * m,
                    m >= 0,
            ;
            lemma_le_val_snoc(r0, b);
            assert(a@.take(i + 1) =~= a@.take(i as int).push(ai));
            lemma_le_val_snoc(a@.take(i as int), ai);
            vstd::arithmetic::div_mod::lemma_fundamental_div_mod(x as int, 256);
            let p = pow256(i as nat);
            lemma_pow256_pos(i as nat);
            assert((le_val(r0) + p * b) + (256 * p) * ((x as int) / 256) == (t0 + p * ai) * m)
                by (nonlinear_arith)
                requires
                    le_val(r0) + p * c0 == t0 * m,
                    x == (ai as int) * m + c0,
                    x == 256 * ((x as int) / 256) + b,
            ;
        }
        i = i + 1;
    }
    proof {
        assert(a@.take(a@.len() as int) =~= a@);
    }
    while carry > 0
        invariant
            le_val(r@) + pow256(r@.len()) * carry == le_val(a@) * m,
        decreases carry,
    {
        let ghost r0 = r@;
        let ghost c0 = carry as int;
        let b = (carry % 256) as u8;
        r.push(b);
        carry = carry / 256;
        proof {
            lemma_le_val_snoc(r0, b);
            vstd::arithmetic::div_mod::lemma_fundamental_div_mod(c0, 256);
            let p = pow256(r0.len());
            assert(p * b + (256 * p) * (c0 / 256) == p * c0) by (nonlinear_arith)
                requires
                    c0 == 256 * (c0 / 256) + b,
            ;
        }
    }
    proof {
        assert(pow256(r@.len()) * 0 == 0);
    }
    r
}

/// Divides the value by a nonzero machine word, rounding down.
pub fn div_small(a: &Vec<u8>, d: u64) -> (r: Vec<u8>)
    requires
        d >= 1,
    ensures
        le_val(r@) == le_val(a@) / (d as int),
{
    let n = a.len();
    let mut q: Vec<u8> = vec![0u8; n];
    let mut rem: u64 = 0;
    let mut i: usize = n;
    proof {
        assert(a@.skip(n as int) =~= Seq::<u8>::empty());
        assert(q@.skip(n as int) =~= Seq::<u8>::empty());
        assert((d as int) * 0 == 0);
    }
    while i > 0
        invariant
            i <= n,
            n == a@.len(),
            q@.len() == n,
            d >= 1,
            rem < d,
            le_val(a@.skip(i as int)) == (d as int) * le_val(q@.skip(i as int)) + rem,
        decreases i,
    {
        i = i - 1;
        let ghost q0 = q@;
        let ghost rem0 = rem as int;
        let ai = a[i];
        let x = (rem as u128) * 256 + (ai as u128);
        proof {
            assert((x as int) / (d as int) < 256 && 0 <= (x as int) % (d as int) < d)
                by (nonlinear_arith)
                requires
                    x == rem0 * 256 + ai,
                    0 <= rem0 < d,
                    ai <= 255,
                    d >= 1,
            ;
        }
        let qd = (x / (d as u128)) as u8;
        rem = (x % (d as u128)) as u64;
        q[i] = qd;
        proof {
            let ghost a1 = le_val(a@.skip(i + 1));
            let ghost q1 = le_val(q0.skip(i + 1));
            assert(q@.skip(i + 1) =~= q0.skip(i + 1));
            assert(a@.skip(i as int).skip(1) =~= a@.skip(i + 1));
            assert(q@.skip(i as int).skip(1) =~= q@.skip(i + 1));
            assert(le_val(a@.skip(i as int)) == ai + 256 * a1);
            assert(le_val(q@.skip(i as int)) == qd + 256 * q1);
            vstd::arithmetic::div_mod::lemma_fundamental_div_mod(x as int, d as int);
            assert(ai + 256 * a1 == (d as int) * (qd + 256 * q1) + rem) by (nonlinear_arith)
                requires
                    a1 == (d as int) * q1 + rem0,
                    x == rem0 * 256 + ai,
                    x == (d as int) * qd + rem,
            ;
        }
    }
    proof {
        assert(a@.skip(0) =~= a@);
        assert(q@.skip(0) =~= q@);
        assert(le_val(a@) == le_val(q@) * (d as int) + rem) by (nonlinear_arith)
            requires
                le_val(a@) == (d as int) * le_val(q@) + rem,
        ;
        vstd::arithmetic::div_mod::lemma_fundamental_div_mod_converse_div(
            le_val(a@), d as int, le_val(q@), rem as int);
    }
    q
}

/// The byte length of the value once trailing zero bytes are dropped.
pub open spec fn eff_len(s: Seq<u8>) -> nat
    decreases s.len(),
{
    if s.len() == 0 {
        0
    } else if s[s.len() - 1] != 0 {
        s.len()
    } else {
        eff_len(s.drop_last())
    }
}

pub proof fn lemma_eff_len_le(s: Seq<u8>)
    ensures
        eff_len(s) <= s.len(),
    decreases s.len(),
{
    if s.len() > 0 && s[s.len() - 1] == 0 {
        lemma_eff_len_le(s.drop_last());
    }
}

/// The dropped trailing bytes are zero, so the value is unchanged, and the
/// top remaining byte is nonzero.
pub proof fn lemma_eff_len_val(s: Seq<u8>)
    ensures
        eff_len(s) <= s.len(),
        le_val(s.take(eff_len(s) as int)) == le_val(s),
        eff_len(s) > 0 ==> s[eff_len(s) - 1] != 0,
    decreases s.len(),
{
    lemma_eff_len_le(s);
    if s.len() == 0 {
        assert(s.take(0) =~= s);
    } else if s[s.len() - 1] != 0 {
        assert(s.take(s.len() as int) =~= s);
    } else {
        lemma_eff_len_val(s.drop_last());
        assert(s =~= s.drop_last().push(s[s.len() - 1]));
        lemma_le_val_snoc(s.drop_last(), s[s.len() - 1]);
        assert(pow256(s.drop_last().len()) * 0 == 0);
        assert(s.drop_last().take(eff_len(s) as int) =~= s.take(eff_len(s) as int));
    }
}

/// The value lies between the place values its effective length dictates.
pub proof fn lemma_eff_len_bounds(s: Seq<u8>)
    ensures
        le_val(s) < pow256(eff_len(s)),
        eff_len(s) > 0 ==> le_val(s) >= pow256((eff_len(s) - 1) as nat),
{
    lemma_eff_len_val(s);
    let e = eff_len(s) as int;
    let t = s.take(e);
    lemma_le_val_bound(t);
    if eff_len(s) > 0 {
        lemma_le_val_split(t, e - 1);
        lemma_le_val_nonneg(t.take(e - 1));
        assert(t.skip(e - 1) =~= seq![s[e - 1]]);
        assert(le_val(seq![s[e - 1]]) == s[e - 1] + 256 * le_val(seq![s[e - 1]].skip(1)));
        assert(seq![s[e - 1]].skip(1) =~= Seq::<u8>::empty());
        let p = pow256((e - 1) as nat);
        lemma_pow256_pos((e - 1) as nat);
        assert(p * le_val(t.skip(e - 1)) >= p * 1) by (nonlinear_arith)
            requires
                p >= 1,
                le_val(t.skip(e - 1)) >= 1,
        ;
    }
}

/// The number of bytes that remain once trailing zero bytes are dropped.
pub fn effective_len(a: &Vec<u8>) -> (n: usize)
    ensures
        n == eff_len(a@),
{
    let mut n = a.len();
    proof {
        assert(a@.take(a@.len() as int) =~= a@);
    }
    while n > 0 && a[n - 1] == 0
        invariant
            n <= a@.len(),
            eff_len(a@) == eff_len(a@.take(n as int)),
        decreases n,
    {
        proof {
            assert(a@.take(n as int).drop_last() =~= a@.take(n - 1));
        }
        n = n - 1;
    }
    proof {
        if n > 0 {
            assert(eff_len(a@.take(n as int)) == n);
        }
    }
    n
}

} // verus!

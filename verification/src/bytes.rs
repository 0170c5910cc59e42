//! Big-endian byte sequences as unbounded natural numbers.
//!
//! Every arbitrary-precision value in this crate is carried as a `Vec<u8>`
//! in big-endian order; `be_val` gives its mathematical value, and the
//! bitwise operations on naturals (`nat_xor`, `nat_and`, `nat_or`) give
//! meaning to the bit-level transforms of the construction.

use vstd::prelude::*;
use vstd::arithmetic::power::pow;
use vstd::arithmetic::power2::pow2;

verus! {

/// Value of a big-endian byte sequence as a natural number.
pub open spec fn be_val(s: Seq<u8>) -> nat
    decreases s.len(),
{
    if s.len() == 0 {
        0
    } else {
        (be_val(s.drop_last()) * 256 + s.last()) as nat
    }
}

/// Bitwise exclusive or of two naturals.
pub open spec fn nat_xor(a: nat, b: nat) -> nat
    decreases a + b,
{
    if a == 0 && b == 0 {
        0
    } else {
        nat_xor(a / 2, b / 2) * 2 + ((a + b) % 2)
    }
}

/// Bitwise and of two naturals.
pub open spec fn nat_and(a: nat, b: nat) -> nat
    decreases a + b,
{
    if a == 0 && b == 0 {
        0
    } else {
        nat_and(a / 2, b / 2) * 2 + if a % 2 == 1 && b % 2 == 1 { 1nat } else { 0nat }
    }
}

/// Bitwise or of two naturals.
pub open spec fn nat_or(a: nat, b: nat) -> nat
    decreases a + b,
{
    if a == 0 && b == 0 {
        0
    } else {
        nat_or(a / 2, b / 2) * 2 + if a % 2 == 1 || b % 2 == 1 { 1nat } else { 0nat }
    }
}

/// Number of binary digits of a natural number (0 for 0).
pub open spec fn bit_len(n: nat) -> nat
    decreases n,
{
    if n == 0 {
        0
    } else {
        1 + bit_len(n / 2)
    }
}

pub proof fn lemma_be_val_bound(s: Seq<u8>)
    ensures
        be_val(s) < pow(256, s.len()),
    decreases s.len(),
{
    reveal(vstd::arithmetic::power::pow);
    if s.len() == 0 {
    } else {
        lemma_be_val_bound(s.drop_last());
        let h = be_val(s.drop_last());
        let p = pow(256, (s.len() - 1) as nat);
        assert(pow(256, s.len()) == 256 * p);
        assert(h * 256 + s.last() < p * 256) by (nonlinear_arith)
            requires
                h < p,
                s.last() < 256,
        ;
    }
}

pub proof fn lemma_be_val_concat(a: Seq<u8>, b: Seq<u8>)
    ensures
        be_val(a + b) == be_val(a) * pow(256, b.len()) + be_val(b),
    decreases b.len(),
{
    reveal(vstd::arithmetic::power::pow);
    if b.len() == 0 {
        assert(a + b =~= a);
    } else {
        let b0 = b.drop_last();
        lemma_be_val_concat(a, b0);
        assert((a + b).drop_last() =~= a + b0);
        assert((a + b).last() == b.last());
        let va = be_val(a);
        let p0 = pow(256, b0.len());
        assert(pow(256, b.len()) == 256 * p0);
        assert((va * p0 + be_val(b0)) * 256 + b.last()
            == va * (256 * p0) + (be_val(b0) * 256 + b.last())) by (nonlinear_arith);
    }
}

pub proof fn lemma_be_val_zeros(s: Seq<u8>)
    requires
        forall|i: int| 0 <= i < s.len() ==> s[i] == 0,
    ensures
        be_val(s) == 0,
    decreases s.len(),
{
    if s.len() > 0 {
        lemma_be_val_zeros(s.drop_last());
    }
}

/// Leading zero bytes do not change the value.
pub proof fn lemma_be_val_skip_zeros(s: Seq<u8>, k: int)
    requires
        0 <= k <= s.len(),
        forall|i: int| 0 <= i < k ==> s[i] == 0,
    ensures
        be_val(s) == be_val(s.subrange(k, s.len() as int)),
{
    let a = s.subrange(0, k);
    let b = s.subrange(k, s.len() as int);
    assert(s =~= a + b);
    lemma_be_val_concat(a, b);
    lemma_be_val_zeros(a);
}

/// Front decomposition of a big-endian value.
pub proof fn lemma_be_val_front(s: Seq<u8>)
    requires
        s.len() > 0,
    ensures
        be_val(s) == s[0] * pow(256, (s.len() - 1) as nat) + be_val(s.subrange(1, s.len() as int)),
{
    let a = s.subrange(0, 1);
    let b = s.subrange(1, s.len() as int);
    assert(s =~= a + b);
    lemma_be_val_concat(a, b);
    assert(a.drop_last() =~= Seq::<u8>::empty());
    assert(be_val(a.drop_last()) == 0);
    assert(be_val(a) == be_val(a.drop_last()) * 256 + a.last());
    assert(be_val(a) == s[0]);
}

pub proof fn lemma_pow256_pow2(k: nat)
    ensures
        pow(256, k) == pow2(8 * k),
    decreases k,
{
    reveal(vstd::arithmetic::power::pow);
    vstd::arithmetic::power2::lemma_pow2(8 * k);
    if k == 0 {
    } else {
        lemma_pow256_pow2((k - 1) as nat);
        vstd::arithmetic::power2::lemma_pow2((8 * k - 8) as nat);
        assert(pow(2, 8 * k) == pow(2, 8) * pow(2, (8 * k - 8) as nat)) by {
            vstd::arithmetic::power::lemma_pow_adds(2, 8, (8 * k - 8) as nat);
        }
        assert(pow(2, 8) == 256) by {
            vstd::arithmetic::power2::lemma2_to64();
            vstd::arithmetic::power2::lemma_pow2(8);
        }
    }
}

pub proof fn lemma_bit_len_bounds(n: nat)
    requires
        n > 0,
    ensures
        bit_len(n) > 0,
        pow2((bit_len(n) - 1) as nat) <= n < pow2(bit_len(n)),
    decreases n,
{
    if n == 1 {
        assert(bit_len(1nat) == 1 + bit_len(0nat));
        vstd::arithmetic::power2::lemma2_to64();
    } else {
        lemma_bit_len_bounds(n / 2);
        let m = bit_len(n / 2);
        assert(pow2(m + 1) == 2 * pow2(m)) by {
            vstd::arithmetic::power2::lemma_pow2_unfold(m + 1);
        }
        if m >= 1 {
            assert(pow2(m) == 2 * pow2((m - 1) as nat)) by {
                vstd::arithmetic::power2::lemma_pow2_unfold(m);
            }
        }
    }
}

/// A value's dyadic window determines its bit length.
pub proof fn lemma_bit_len_unique(n: nat, m: nat)
    requires
        m > 0,
        pow2((m - 1) as nat) <= n < pow2(m),
    ensures
        bit_len(n) == m,
{
    vstd::arithmetic::power2::lemma_pow2_pos((m - 1) as nat);
    lemma_bit_len_bounds(n);
    let k = bit_len(n);
    if k < m {
        assert(pow2(k) <= pow2((m - 1) as nat)) by {
            if k < m - 1 {
                vstd::arithmetic::power2::lemma_pow2_strictly_increases(k, (m - 1) as nat);
            }
        }
    }
    if k > m {
        assert(pow2(m) <= pow2((k - 1) as nat)) by {
            if m < k - 1 {
                vstd::arithmetic::power2::lemma_pow2_strictly_increases(m, (k - 1) as nat);
            }
        }
    }
}

pub proof fn lemma_nat_and_le(a: nat, b: nat)
    ensures
        nat_and(a, b) <= a,
        nat_and(a, b) <= b,
    decreases a + b,
{
    if !(a == 0 && b == 0) {
        lemma_nat_and_le(a / 2, b / 2);
        let c: nat = if a % 2 == 1 && b % 2 == 1 { 1nat } else { 0nat };
        assert(nat_and(a / 2, b / 2) * 2 + c <= a) by (nonlinear_arith)
            requires
                nat_and(a / 2, b / 2) <= a / 2,
                c <= a % 2,
        ;
        assert(nat_and(a / 2, b / 2) * 2 + c <= b) by (nonlinear_arith)
            requires
                nat_and(a / 2, b / 2) <= b / 2,
                c <= b % 2,
        ;
    }
}

pub proof fn lemma_nat_xor_bound(a: nat, b: nat, k: nat)
    requires
        a < pow2(k),
        b < pow2(k),
    ensures
        nat_xor(a, b) < pow2(k),
    decreases k,
{
    if a == 0 && b == 0 {
        vstd::arithmetic::power2::lemma_pow2_pos(k);
    } else {
        assert(k > 0) by {
            if k == 0 {
                assert(pow2(0) == 1) by {
                    vstd::arithmetic::power2::lemma2_to64();
                }
            }
        }
        assert(pow2(k) == 2 * pow2((k - 1) as nat)) by {
            vstd::arithmetic::power2::lemma_pow2_unfold(k);
        }
        lemma_nat_xor_bound(a / 2, b / 2, (k - 1) as nat);
    }
}


/// A value below a power of two has at most that many binary digits.
pub proof fn lemma_bit_len_le(n: nat, k: nat)
    requires
        n < pow2(k),
    ensures
        bit_len(n) <= k,
{
    if n > 0 {
        lemma_bit_len_bounds(n);
        let m = bit_len(n);
        if m > k {
            assert(pow2(k) <= pow2((m - 1) as nat)) by {
                if k < m - 1 {
                    vstd::arithmetic::power2::lemma_pow2_strictly_increases(k, (m - 1) as nat);
                }
            }
        }
    }
}

/// The bit length of a big-endian value whose first nonzero byte stands
/// at position `k`.
pub proof fn lemma_bit_len_be(s: Seq<u8>, k: int)
    requires
        0 <= k < s.len(),
        forall|i: int| 0 <= i < k ==> s[i] == 0,
        s[k] != 0,
    ensures
        be_val(s) > 0,
        bit_len(be_val(s)) == 8 * (s.len() - 1 - k) + bit_len(s[k] as nat),
{
    lemma_be_val_skip_zeros(s, k);
    let t = s.subrange(k, s.len() as int);
    let ell = (t.len() - 1) as nat;
    lemma_be_val_front(t);
    let rest = be_val(t.subrange(1, t.len() as int));
    lemma_be_val_bound(t.subrange(1, t.len() as int));
    let m = bit_len(t[0] as nat);
    lemma_bit_len_bounds(t[0] as nat);
    lemma_pow256_pow2(ell);
    vstd::arithmetic::power2::lemma_pow2_adds((m - 1) as nat, 8 * ell);
    vstd::arithmetic::power2::lemma_pow2_adds(m, 8 * ell);
    vstd::arithmetic::power2::lemma_pow2_pos(8 * ell);
    assert(t[0] * pow2(8 * ell) >= pow2((m - 1) as nat) * pow2(8 * ell)) by (nonlinear_arith)
        requires
            t[0] >= pow2((m - 1) as nat),
            pow2(8 * ell) > 0,
    ;
    assert(t[0] * pow2(8 * ell) + rest < pow2(m) * pow2(8 * ell)) by (nonlinear_arith)
        requires
            t[0] < pow2(m),
            rest < pow2(8 * ell),
            pow2(8 * ell) > 0,
    ;
    vstd::arithmetic::power2::lemma_pow2_pos((m + 8 * ell - 1) as nat);
    lemma_bit_len_unique(be_val(t), m + 8 * ell);
}


/// The unique big-endian representation of `x % 256^w` in exactly `w` bytes.
pub open spec fn fixed_bytes(x: nat, w: nat) -> Seq<u8>
    decreases w,
{
    if w == 0 {
        Seq::empty()
    } else {
        fixed_bytes(x / 256, (w - 1) as nat).push((x % 256) as u8)
    }
}

pub proof fn lemma_fixed_bytes(x: nat, w: nat)
    ensures
        fixed_bytes(x, w).len() == w,
        be_val(fixed_bytes(x, w)) == x % (pow(256, w) as nat),
        x < pow(256, w) ==> be_val(fixed_bytes(x, w)) == x,
    decreases w,
{
    reveal(vstd::arithmetic::power::pow);
    vstd::arithmetic::power::lemma_pow_positive(256, w);
    if w == 0 {
        assert(x % 1 == 0) by (nonlinear_arith);
    } else {
        lemma_fixed_bytes(x / 256, (w - 1) as nat);
        let f = fixed_bytes(x, w);
        let f0 = fixed_bytes(x / 256, (w - 1) as nat);
        assert(f.drop_last() =~= f0);
        assert(f.last() == (x % 256) as u8);
        let z = pow(256, (w - 1) as nat);
        vstd::arithmetic::power::lemma_pow_positive(256, (w - 1) as nat);
        assert((x as int) % (256 * z) == 256 * ((x as int / 256) % z) + (x as int) % 256) by {
            vstd::arithmetic::div_mod::lemma_mod_breakdown(x as int, 256, z);
        }
    }
}

/// A sequence is determined by its length and value.
pub proof fn lemma_fixed_bytes_unique(s: Seq<u8>)
    ensures
        s == fixed_bytes(be_val(s), s.len()),
    decreases s.len(),
{
    if s.len() > 0 {
        let h = s.drop_last();
        lemma_fixed_bytes_unique(h);
        let x = be_val(s);
        assert(x == be_val(h) * 256 + s.last());
        assert(x / 256 == be_val(h) && x % 256 == s.last()) by (nonlinear_arith)
            requires
                x == be_val(h) * 256 + s.last(),
                0 <= s.last() < 256,
        ;
        assert(fixed_bytes(x, s.len()) =~= s);
    }
}

/// Copies `v`, appending `src` at its end.
pub(crate) fn push_all(v: Vec<u8>, src: &[u8]) -> (r: Vec<u8>)
    ensures
        r@ == v@ + src@,
{
    let ghost orig = v@;
    let mut out = v;
    let mut i: usize = 0;
    while i < src.len()
        invariant
            i <= src@.len(),
            out@ == orig + src@.take(i as int),
        decreases src@.len() - i,
    {
        out.push(src[i]);
        proof {
            assert(orig + src@.take(i + 1) =~= (orig + src@.take(i as int)).push(src@[i as int]));
        }
        i = i + 1;
    }
    proof {
        assert(orig + src@.take(src@.len() as int) =~= orig + src@);
    }
    out
}

/// The bytes of `src` from `start` on, `len` of them.
pub(crate) fn sub_bytes(src: &Vec<u8>, start: usize, len: usize) -> (r: Vec<u8>)
    requires
        start + len <= src@.len(),
    ensures
        r@ == src@.subrange(start as int, start as int + len as int),
{
    let n = src.len();
    let mut out: Vec<u8> = Vec::new();
    let mut j: usize = 0;
    while j < len
        invariant
            j <= len,
            n == src@.len(),
            start + len <= n,
            out@ == src@.subrange(start as int, start as int + j as int),
        decreases len - j,
    {
        out.push(src[start + j]);
        proof {
            assert(src@.subrange(start as int, start as int + j + 1)
                =~= src@.subrange(start as int, start as int + j as int).push(src@[start + j]));
        }
        j = j + 1;
    }
    out
}

/// Position of the first nonzero byte, or the length if all are zero.
pub(crate) fn first_nonzero(v: &Vec<u8>) -> (r: usize)
    ensures
        r <= v@.len(),
        forall|i: int| 0 <= i < r ==> v@[i] == 0,
        r < v@.len() ==> v@[r as int] != 0,
{
    let mut i: usize = 0;
    while i < v.len()
        invariant
            i <= v@.len(),
            forall|j: int| 0 <= j < i ==> v@[j] == 0,
        decreases v@.len() - i,
    {
        if v[i] != 0 {
            return i;
        }
        i = i + 1;
    }
    i
}

/// Serializes a value to exactly `w` big-endian bytes, left-padded with
/// zeros.
pub(crate) fn to_width(v: &Vec<u8>, w: usize) -> (r: Vec<u8>)
    requires
        be_val(v@) < pow(256, w as nat),
    ensures
        r@ == fixed_bytes(be_val(v@), w as nat),
        r@.len() == w,
{
    let fz = first_nonzero(v);
    let t_len: usize = v.len() - fz;
    proof {
        lemma_be_val_skip_zeros(v@, fz as int);
        if t_len > 0 {
            let t = v@.subrange(fz as int, v@.len() as int);
            lemma_be_val_front(t);
            lemma_be_val_bound(t.subrange(1, t.len() as int));
            vstd::arithmetic::power::lemma_pow_positive(256, (t_len - 1) as nat);
            assert(t[0] * pow(256, (t_len - 1) as nat) >= pow(256, (t_len - 1) as nat))
                by (nonlinear_arith)
                requires
                    t[0] >= 1,
                    pow(256, (t_len - 1) as nat) > 0,
            ;
            if t_len > w {
                vstd::arithmetic::power::lemma_pow_increases(256, w as nat, (t_len - 1) as nat);
                assert(false);
            }
        }
    }
    let mut out: Vec<u8> = Vec::new();
    let mut j: usize = 0;
    while j < w - t_len
        invariant
            j <= w - t_len,
            t_len <= w,
            out@.len() == j,
            forall|q: int| 0 <= q < j ==> out@[q] == 0,
        decreases w - t_len - j,
    {
        out.push(0);
        j = j + 1;
    }
    let tail = sub_bytes(v, fz, t_len);
    let r = push_all(out, tail.as_slice());
    proof {
        assert(forall|q: int| 0 <= q < w - t_len ==> r@[q] == 0);
        lemma_be_val_skip_zeros(r@, w - t_len);
        assert(r@.subrange(w - t_len, r@.len() as int) =~= v@.subrange(fz as int, v@.len() as int));
        lemma_fixed_bytes_unique(r@);
        lemma_fixed_bytes(be_val(v@), w as nat);
    }
    r
}

/// The value two to the `bits` minus one: the low `bits` bits all set.
pub open spec fn mask_val(bits: nat) -> nat {
    (pow2(bits) - 1) as nat
}

/// Builds the mask of the low `bits` bits.
#[verifier::loop_isolation(false)]
pub(crate) fn mask_bytes(bits: usize) -> (r: Vec<u8>)
    ensures
        be_val(r@) == mask_val(bits as nat),
{
    proof {
        vstd::arithmetic::power2::lemma2_to64();
    }
    let mut out: Vec<u8> = Vec::new();
    let rem: usize = bits % 8;
    if rem > 0 {
        let top: u8 = match rem {
            1 => 1,
            2 => 3,
            3 => 7,
            4 => 15,
            5 => 31,
            6 => 63,
            _ => 127,
        };
        out.push(top);
        proof {
            assert(out@.drop_last() =~= Seq::<u8>::empty());
        }
    }
    let full: usize = bits / 8;
    let mut j: usize = 0;
    proof {
        if rem > 0 {
            assert(out@.len() == 1);
            assert(out@.drop_last() =~= Seq::<u8>::empty());
            assert(be_val(out@.drop_last()) == 0);
            assert(be_val(out@) == out@.last());
            assert(pow2(1) == 2 && pow2(2) == 4 && pow2(3) == 8 && pow2(4) == 16
                && pow2(5) == 32 && pow2(6) == 64 && pow2(7) == 128);
            assert(be_val(out@) == mask_val(rem as nat));
        } else {
            assert(be_val(out@) == 0);
            assert(mask_val(0nat) == 0);
        }
        assert(be_val(out@) == mask_val((rem + 8 * j) as nat));
    }
    while j < full
        invariant
            j <= full,
            rem == bits % 8,
            full == bits / 8,
            be_val(out@) == mask_val((rem + 8 * j) as nat),
        decreases full - j,
    {
        let ghost prev = out@;
        out.push(255);
        proof {
            assert(out@.drop_last() =~= prev);
            vstd::arithmetic::power2::lemma_pow2_adds((rem + 8 * j) as nat, 8);
            vstd::arithmetic::power2::lemma_pow2_pos((rem + 8 * j) as nat);
        }
        j = j + 1;
    }
    proof {
        assert(rem + 8 * full == bits);
    }
    out
}
} // verus!

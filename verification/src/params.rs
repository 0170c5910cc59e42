//! The frozen arithmetic parameters of the construction: the prime
//! modulus, its bit length, and the byte width of one state element.
//!
//! The modulus is embedded as a canonical hexadecimal constant; parsing
//! it, and deriving the two widths from it, is verified here. A malformed
//! or zero constant is a fatal configuration error, reported as `None`.

use vstd::prelude::*;
use vstd::arithmetic::power::pow;
use vstd::arithmetic::power2::pow2;
use vstd::string::StringSliceAdditionalSpecFns;
use crate::bytes::{
    be_val, bit_len, lemma_be_val_zeros, lemma_bit_len_be, lemma_bit_len_le,
    lemma_pow256_pow2,
};

verus! {

/// Numeric value of one ASCII character read as a hexadecimal digit;
/// 16 marks a character that is no such digit.
pub open spec fn hex_digit_val(b: u8) -> nat {
    if 48 <= b <= 57 {
        (b - 48) as nat
    } else if 65 <= b <= 70 {
        (b - 55) as nat
    } else if 97 <= b <= 102 {
        (b - 87) as nat
    } else {
        16
    }
}

pub open spec fn is_hex_digit(b: u8) -> bool {
    hex_digit_val(b) < 16
}

/// A well-formed hexadecimal constant: nonempty, hex digits only.
pub open spec fn hex_ok(s: Seq<u8>) -> bool {
    s.len() > 0 && forall|i: int| 0 <= i < s.len() ==> is_hex_digit(s[i])
}

/// Value of an ASCII hexadecimal string.
pub open spec fn hex_val(s: Seq<u8>) -> nat
    decreases s.len(),
{
    if s.len() == 0 {
        0
    } else {
        hex_val(s.drop_last()) * 16 + hex_digit_val(s.last())
    }
}

/// The embedded modulus constant, as the ASCII bytes of its canonical
/// hexadecimal representation.
pub open spec fn modulus_hex() -> Seq<u8> {
    "FFFFFFFFFFFFFFFFC90FDAA22168C234C4C6628B80DC1CD129024E088A67CC74020BBEA63B139B22514A08798E3404DDEF9519B3CD3A431B302B0A6DF25F14374FE1356D6D51C245E485B576625E7EC6F44C42E9A63A36210000000000090563".spec_bytes()
}

/// The frozen parameter set: modulus `P`, its bit length, and the byte
/// width of one serialized state element.
pub struct Params {
    prime: Vec<u8>,
    word_bits: usize,
    bytes_per_elem: usize,
}

impl Params {
    /// The modulus as a natural number.
    pub closed spec fn p(&self) -> nat {
        be_val(self.prime@)
    }

    /// Bit length of the modulus.
    pub closed spec fn wb(&self) -> nat {
        self.word_bits as nat
    }

    /// Bytes needed to hold one value below two to the `wb()`.
    pub closed spec fn bpe(&self) -> nat {
        self.bytes_per_elem as nat
    }

    /// Well-formedness: the widths are the ones the modulus dictates.
    pub closed spec fn wf(&self) -> bool {
        &&& self.p() > 0
        &&& self.word_bits as nat == bit_len(self.p())
        &&& self.bytes_per_elem as nat == (self.word_bits as nat + 7) / 8
        &&& crate::StateSize * self.bytes_per_elem <= usize::MAX
    }

    /// What well-formedness yields about the numeric relations.
    pub proof fn lemma_wf_facts(&self)
        requires
            self.wf(),
        ensures
            self.p() > 0,
            self.wb() == bit_len(self.p()),
            self.wb() > 0,
            self.bpe() == (self.wb() + 7) / 8,
            self.wb() <= 8 * self.bpe(),
            self.p() < pow2(self.wb()),
            pow2(self.wb()) <= pow(256, self.bpe()),
            crate::StateSize * self.bpe() <= usize::MAX,
    {
        crate::bytes::lemma_bit_len_bounds(self.p());
        lemma_pow256_pow2(self.bpe());
        if self.wb() < 8 * self.bpe() {
            vstd::arithmetic::power2::lemma_pow2_strictly_increases(self.wb(), 8 * self.bpe());
        }
    }

    /// The modulus in big-endian bytes.
    pub fn prime_bytes(&self) -> (r: &Vec<u8>)
        ensures
            be_val(r@) == self.p(),
    {
        &self.prime
    }
}

/// Numeric value of an ASCII hexadecimal digit; 16 for any other byte.
fn hex_digit_value(b: u8) -> (r: u8)
    ensures
        r as nat == hex_digit_val(b),
{
    if 48 <= b && b <= 57 {
        b - 48
    } else if 65 <= b && b <= 70 {
        b - 55
    } else if 97 <= b && b <= 102 {
        b - 87
    } else {
        16
    }
}

/// Parses an ASCII hexadecimal string into the big-endian bytes of its
/// value; `None` exactly when the string is empty or holds a non-digit.
fn parse_hex(bs: &[u8]) -> (r: Option<Vec<u8>>)
    ensures
        r is Some <==> hex_ok(bs@),
        r is Some ==> be_val(r.unwrap()@) == hex_val(bs@),
        r is Some ==> 2 * r.unwrap()@.len() <= bs@.len() + 1,
{
    let n = bs.len();
    if n == 0 {
        return None;
    }
    let mut i: usize = 0;
    while i < n
        invariant
            n == bs@.len(),
            i <= n,
            forall|j: int| 0 <= j < i ==> is_hex_digit(bs@[j]),
        decreases n - i,
    {
        if hex_digit_value(bs[i]) >= 16 {
            return None;
        }
        i = i + 1;
    }
    let mut out: Vec<u8> = Vec::new();
    let mut k: usize = 0;
    proof {
        assert(bs@.take(0) =~= Seq::<u8>::empty());
        assert(be_val(out@) == 0);
        assert(hex_val(bs@.take(0)) == 0);
    }
    if n % 2 == 1 {
        out.push(hex_digit_value(bs[0]));
        k = 1;
        proof {
            assert(bs@.take(1).drop_last() =~= Seq::<u8>::empty());
            assert(out@.drop_last() =~= Seq::<u8>::empty());
            assert(bs@.take(1).last() == bs@[0]);
            assert(hex_val(bs@.take(1)) == hex_digit_val(bs@[0]));
            assert(be_val(out@) == out@.last());
            assert(be_val(out@) == hex_val(bs@.take(1)));
        }
    }
    while k < n
        invariant
            n == bs@.len(),
            hex_ok(bs@),
            k <= n,
            k % 2 == n % 2,
            2 * out@.len() == k + (n % 2),
            be_val(out@) == hex_val(bs@.take(k as int)),
        decreases n - k,
    {
        let d1 = hex_digit_value(bs[k]);
        let d2 = hex_digit_value(bs[k + 1]);
        let ghost prev = out@;
        out.push(16 * d1 + d2);
        proof {
            assert(bs@.take(k + 2).drop_last() =~= bs@.take(k + 1));
            assert(bs@.take(k + 1).drop_last() =~= bs@.take(k as int));
            assert(out@.drop_last() =~= prev);
            assert(bs@.take(k + 2).last() == bs@[k + 1]);
            assert(bs@.take(k + 1).last() == bs@[k as int]);
            assert(hex_val(bs@.take(k + 1)) == hex_val(bs@.take(k as int)) * 16 + hex_digit_val(bs@[k as int]));
            assert(hex_val(bs@.take(k + 2)) == hex_val(bs@.take(k + 1)) * 16 + hex_digit_val(bs@[k + 1]));
            assert(out@.last() == 16 * d1 + d2);
            assert(be_val(out@) == be_val(prev) * 256 + (16 * d1 + d2));
            assert(be_val(out@) == hex_val(bs@.take(k + 2)));
        }
        k = k + 2;
    }
    proof {
        assert(bs@.take(n as int) =~= bs@);
    }
    Some(out)
}

/// Position of the first nonzero byte, or the length if all are zero.
fn first_nonzero(v: &Vec<u8>) -> (r: usize)
    ensures
        r <= v@.len(),
        forall|i: int| 0 <= i < r ==> v@[i] == 0,
        r < v@.len() ==> v@[r as int] != 0,
{
    let mut i: usize = 0;
    while i < v.len()
        invariant
            i <= v@.len(),
            forall|j: int| 0 <= j < i ==> v@[j] == 0,
        decreases v@.len() - i,
    {
        if v[i] != 0 {
            return i;
        }
        i = i + 1;
    }
    i
}

/// Number of binary digits of one byte.
fn byte_bit_len(b: u8) -> (r: usize)
    ensures
        r as nat == bit_len(b as nat),
        r <= 8,
{
    proof {
        vstd::arithmetic::power2::lemma2_to64();
        lemma_bit_len_le(b as nat, 8);
    }
    let mut n: u8 = b;
    let mut c: usize = 0;
    while n > 0
        invariant
            bit_len(b as nat) == c + bit_len(n as nat),
            c + bit_len(n as nat) <= 8,
        decreases n,
    {
        n = n / 2;
        c = c + 1;
    }
    c
}

/// Parses the embedded modulus constant and freezes the derived widths.
/// `None` exactly when the constant is malformed or zero: the fatal
/// configuration error of the construction.
pub fn InitializeParameters() -> (r: Option<Params>)
    ensures
        r is Some <==> hex_ok(modulus_hex()) && hex_val(modulus_hex()) > 0,
        r is Some ==> r.unwrap().wf(),
        r is Some ==> r.unwrap().p() == hex_val(modulus_hex()),
{
    let hex_str = "FFFFFFFFFFFFFFFFC90FDAA22168C234C4C6628B80DC1CD129024E088A67CC74020BBEA63B139B22514A08798E3404DDEF9519B3CD3A431B302B0A6DF25F14374FE1356D6D51C245E485B576625E7EC6F44C42E9A63A36210000000000090563";
    let bs = hex_str.as_bytes();
    proof {
        reveal_strlit("FFFFFFFFFFFFFFFFC90FDAA22168C234C4C6628B80DC1CD129024E088A67CC74020BBEA63B139B22514A08798E3404DDEF9519B3CD3A431B302B0A6DF25F14374FE1356D6D51C245E485B576625E7EC6F44C42E9A63A36210000000000090563");
        assert(vstd::utf8::is_ascii_chars(hex_str@));
        vstd::utf8::is_ascii_chars_encode_utf8(hex_str@);
        assert(bs@.len() == 192);
    }
    match parse_hex(bs) {
        None => None,
        Some(prime) => {
            let fz = first_nonzero(&prime);
            if fz == prime.len() {
                proof {
                    lemma_be_val_zeros(prime@);
                }
                None
            } else {
                proof {
                    lemma_bit_len_be(prime@, fz as int);
                }
                let word_bits = 8 * (prime.len() - fz - 1) + byte_bit_len(prime[fz]);
                let bytes_per_elem = (word_bits + 7) / 8;
                Some(Params { prime, word_bits, bytes_per_elem })
            }
        },
    }
}

/// Bit length of the modulus, as frozen in the parameter set.
pub fn WordBitsValue(params: &Params) -> (r: usize)
    ensures
        r as nat == params.wb(),
{
    params.word_bits
}

/// Byte width of one serialized state element.
pub fn BytesPerElemValue(params: &Params) -> (r: usize)
    ensures
        r as nat == params.bpe(),
{
    params.bytes_per_elem
}

} // verus!

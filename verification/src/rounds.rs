//! The core transforms: folding a message block into the state, and the
//! diffusion and confusion passes of the round function.

use vstd::prelude::*;
use vstd::arithmetic::power::pow;
use vstd::arithmetic::power2::pow2;
use crate::bytes::{
    be_val, nat_xor, nat_and, nat_or, mask_val, mask_bytes, sub_bytes,
    lemma_nat_and_le, lemma_nat_xor_bound,
};
use crate::bigops::{big_add, big_mod, big_xor, big_and, big_or, big_shr, big_shl, big_mul};
use crate::params::{Params, WordBitsValue};
use crate::state::{State, views_of, state_ok, lemma_views_update, lemma_views_push, lemma_state_view};
use crate::StateSize;

verus! {

/// Left rotation of the low `bits` bits of `x` by `r` positions.
pub open spec fn rol_spec(x: nat, r: nat, bits: nat) -> nat
    recommends
        bits > 0,
{
    let rr = r % bits;
    nat_and(nat_or(x * pow2(rr), x / pow2((bits - rr) as nat)), mask_val(bits))
}

/// Rotates the low `bits` bits of `x` left by `r` positions.
pub fn Rol(x: &Vec<u8>, r: usize, bits: usize) -> (res: Vec<u8>)
    requires
        bits > 0,
    ensures
        be_val(res@) == rol_spec(be_val(x@), r as nat, bits as nat),
{
    let rr = r % bits;
    let left = big_shl(x, rr);
    let right = big_shr(x, bits - rr);
    let both = big_or(&left, &right);
    let mask = mask_bytes(bits);
    big_and(&both, &mask)
}

/// The block padded with zero bytes to the next multiple of eight.
pub open spec fn zpad8(b: Seq<u8>) -> Seq<u8> {
    if b.len() % 8 == 0 {
        b
    } else {
        b + Seq::new((8 - b.len() % 8) as nat, |i: int| 0u8)
    }
}

pub proof fn lemma_zpad8_len(b: Seq<u8>)
    ensures
        zpad8(b).len() == 8 * ((b.len() + 7) / 8),
        zpad8(b).len() % 8 == 0,
        b.len() <= zpad8(b).len() <= b.len() + 7,
{
}

/// The word added into slot `idx`, reduced by the modulus.
pub open spec fn absorb_add(s: Seq<nat>, w: nat, idx: int, p: nat) -> Seq<nat>
    recommends
        0 <= idx < s.len(),
        p > 0,
{
    s.update(idx, (s[idx] + w) % p)
}

/// The masked high part of the word xor-ed into slot `nx`.
pub open spec fn absorb_xor(s: Seq<nat>, w: nat, nx: int, wb: nat) -> Seq<nat>
    recommends
        0 <= nx < s.len(),
{
    s.update(nx, nat_xor(s[nx], nat_and(w / 0x10000, mask_val(wb))))
}

/// One word folded into the state: the word is added into its slot and
/// its masked high part is xor-ed into the next slot.
pub open spec fn absorb_word(s: Seq<nat>, w: nat, i: int, p: nat, wb: nat) -> Seq<nat>
    recommends
        s.len() > 0,
        p > 0,
{
    absorb_xor(
        absorb_add(s, w, i % (s.len() as int), p),
        w,
        (i % (s.len() as int) + 1) % (s.len() as int),
        wb,
    )
}

/// The state after the first `k` words of the padded block are folded in.
pub open spec fn absorb_words(s: Seq<nat>, b: Seq<u8>, k: int, p: nat, wb: nat) -> Seq<nat>
    decreases k,
{
    if k <= 0 {
        s
    } else {
        absorb_word(
            absorb_words(s, b, k - 1, p, wb),
            be_val(zpad8(b).subrange(8 * (k - 1), 8 * k)),
            k - 1,
            p,
            wb,
        )
    }
}

/// The state after one whole block is absorbed.
pub open spec fn absorb_spec(s: Seq<nat>, b: Seq<u8>, p: nat, wb: nat) -> Seq<nat> {
    absorb_words(s, b, zpad8(b).len() as int / 8, p, wb)
}

/// The diffusion output at index `i`: the element is mixed with its two
/// fixed neighbours, reduced, and rotated by a position-dependent amount.
pub open spec fn diffuse_elem(s: Seq<nat>, i: int, p: nat, wb: nat) -> nat
    recommends
        0 <= i < s.len(),
        p > 0,
        wb > 0,
{
    let n = s.len() as int;
    let mix = (s[i] + nat_xor(s[(i + 1) % n], s[(i + 7) % n] / 8)) % p;
    rol_spec(mix, ((3 * i) % (wb as int)) as nat, wb)
}

/// The linear diffusion pass over the whole vector, reading only
/// pre-round values.
pub open spec fn diffuse_spec(s: Seq<nat>, p: nat, wb: nat) -> Seq<nat> {
    Seq::new(s.len(), |i: int| diffuse_elem(s, i, p, wb))
}

/// The confusion output for one element: its third and fifth powers and
/// a fixed offset, reduced by the modulus.
pub open spec fn confuse_elem(x: nat, p: nat) -> nat
    recommends
        p > 0,
{
    ((pow(x as int, 3) + pow(x as int, 5) + 17) % (p as int)) as nat
}

/// The element-wise non-linear confusion pass.
pub open spec fn confuse_spec(s: Seq<nat>, p: nat) -> Seq<nat> {
    s.map(|i: int, x: nat| confuse_elem(x, p))
}

/// One full round: diffusion, then confusion on the diffused vector.
pub open spec fn round_spec(s: Seq<nat>, p: nat, wb: nat) -> Seq<nat> {
    confuse_spec(diffuse_spec(s, p, wb), p)
}

/// `k` rounds applied in order.
pub open spec fn rounds_spec(s: Seq<nat>, k: nat, p: nat, wb: nat) -> Seq<nat>
    decreases k,
{
    if k == 0 {
        s
    } else {
        round_spec(rounds_spec(s, (k - 1) as nat, p, wb), p, wb)
    }
}

/// Copies the eight block bytes of word `i`, reading zeros past the end.
#[verifier::loop_isolation(false)]
fn word_chunk(block: &Vec<u8>, i: usize) -> (r: Vec<u8>)
    requires
        block@.len() <= usize::MAX - 8,
        8 * (i as int) + 8 <= zpad8(block@).len(),
    ensures
        r@ == zpad8(block@).subrange(8 * (i as int), 8 * (i as int) + 8),
{
    proof {
        lemma_zpad8_len(block@);
    }
    let n = block.len();
    let mut out: Vec<u8> = Vec::new();
    let mut j: usize = 0;
    while j < 8
        invariant
            j <= 8,
            out@.len() == j,
            forall|q: int| 0 <= q < j ==> out@[q] == zpad8(block@)[8 * (i as int) + q],
        decreases 8 - j,
    {
        if 8 * i + j < n {
            out.push(block[8 * i + j]);
        } else {
            out.push(0);
        }
        j = j + 1;
    }
    proof {
        assert(out@ =~= zpad8(block@).subrange(8 * (i as int), 8 * (i as int) + 8));
    }
    out
}

/// A fresh copy of each element's bytes.
fn copy_elems(v: &Vec<Vec<u8>>) -> (r: Vec<Vec<u8>>)
    ensures
        r@.len() == v@.len(),
        forall|i: int| 0 <= i < v@.len() ==> r@[i]@ == v@[i]@,
{
    let mut out: Vec<Vec<u8>> = Vec::new();
    let mut i: usize = 0;
    while i < v.len()
        invariant
            i <= v@.len(),
            out@.len() == i,
            forall|j: int| 0 <= j < i ==> out@[j]@ == v@[j]@,
        decreases v@.len() - i,
    {
        let e = &v[i];
        let c = sub_bytes(e, 0, e.len());
        proof {
            assert(c@ =~= e@);
        }
        out.push(c);
        i = i + 1;
    }
    out
}

/// Folds one padded message block into the state, word by word.
#[verifier::loop_isolation(false)]
pub fn AbsorbMessageBlock(params: &Params, state: &State, block: &Vec<u8>) -> (r: State)
    requires
        params.wf(),
        state@.len() == StateSize,
        block@.len() <= usize::MAX - 8,
    ensures
        r@ == absorb_spec(state@, block@, params.p(), params.wb()),
        r@.len() == StateSize,
{
    let ghost p = params.p();
    let ghost wb = params.wb();
    proof {
        params.lemma_wf_facts();
        lemma_zpad8_len(block@);
        lemma_state_view(state);
    }
    let prime = params.prime_bytes();
    let wbits = WordBitsValue(params);
    let mask = mask_bytes(wbits);
    let mut s = copy_elems(&state.elems);
    proof {
        assert(views_of(s@) =~= state@);
    }
    let nwords = (block.len() + 7) / 8;
    let mut i: usize = 0;
    while i < nwords
        invariant
            i <= nwords,
            s@.len() == StateSize,
            views_of(s@) == absorb_words(state@, block@, i as int, p, wb),
        decreases nwords - i,
    {
        let chunk = word_chunk(block, i);
        let ghost w = be_val(chunk@);
        let ghost before = views_of(s@);
        let idx = i % StateSize;
        let added = big_add(&s[idx], &chunk);
        let reduced = big_mod(&added, prime);
        proof {
            lemma_views_update(s@, idx as int, reduced);
        }
        s.set(idx, reduced);
        let ghost mid = views_of(s@);
        let nx = (idx + 1) % StateSize;
        let shifted = big_shr(&chunk, 16);
        let masked = big_and(&shifted, &mask);
        let xored = big_xor(&s[nx], &masked);
        proof {
            lemma_views_update(s@, nx as int, xored);
        }
        s.set(nx, xored);
        proof {
            vstd::arithmetic::power2::lemma2_to64();
            assert(mid =~= before.update(idx as int, (before[idx as int] + w) % p));
            assert(mid == absorb_add(before, w, idx as int, p));
            assert(views_of(s@) =~= mid.update(
                nx as int,
                nat_xor(mid[nx as int], nat_and(w / 0x10000, mask_val(wb))),
            ));
            assert(views_of(s@) =~= absorb_word(before, w, i as int, p, wb));
        }
        i = i + 1;
    }
    let res = State { elems: s };
    proof {
        lemma_state_view(&res);
        assert(nwords as int == zpad8(block@).len() as int / 8);
    }
    res
}

/// The linear diffusion pass: every output element is computed from the
/// pre-pass values at its own and its two neighbour positions.
#[verifier::loop_isolation(false)]
pub fn ApplyLinearDiffusion(params: &Params, state: &State) -> (r: State)
    requires
        params.wf(),
        state@.len() == StateSize,
    ensures
        r@ == diffuse_spec(state@, params.p(), params.wb()),
        r@.len() == StateSize,
{
    let ghost p = params.p();
    let ghost wb = params.wb();
    proof {
        params.lemma_wf_facts();
        lemma_state_view(state);
    }
    let prime = params.prime_bytes();
    let wbits = WordBitsValue(params);
    let n = state.elems.len();
    let mut out: Vec<Vec<u8>> = Vec::new();
    let mut i: usize = 0;
    while i < n
        invariant
            i <= n,
            out@.len() == i,
            forall|j: int| 0 <= j < i ==> views_of(out@)[j] == diffuse_elem(state@, j, p, wb),
        decreases n - i,
    {
        let a = &state.elems[i];
        let b = &state.elems[(i + 1) % n];
        let c = &state.elems[(i + 7) % n];
        let cs = big_shr(c, 3);
        let x = big_xor(b, &cs);
        let sum = big_add(a, &x);
        let mix = big_mod(&sum, prime);
        let rot = Rol(&mix, (3 * i) % wbits, wbits);
        proof {
            vstd::arithmetic::power2::lemma2_to64();
            assert(be_val(mix@) == (state@[i as int] + nat_xor(
                state@[(i as int + 1) % (n as int)],
                state@[(i as int + 7) % (n as int)] / 8,
            )) % p);
            assert(be_val(rot@) == diffuse_elem(state@, i as int, p, wb));
            lemma_views_push(out@, rot);
        }
        out.push(rot);
        i = i + 1;
    }
    let res = State { elems: out };
    proof {
        lemma_state_view(&res);
        assert(views_of(out@) =~= diffuse_spec(state@, p, wb));
    }
    res
}

/// The element-wise non-linear confusion pass.
#[verifier::loop_isolation(false)]
pub fn ApplyNonLinearConfusion(params: &Params, state: &State) -> (r: State)
    requires
        params.wf(),
    ensures
        r@ == confuse_spec(state@, params.p()),
        r@.len() == state@.len(),
{
    let ghost p = params.p();
    proof {
        params.lemma_wf_facts();
        lemma_state_view(state);
    }
    let prime = params.prime_bytes();
    let mut c17: Vec<u8> = Vec::new();
    c17.push(17);
    proof {
        assert(c17@.drop_last() =~= Seq::<u8>::empty());
        assert(be_val(c17@.drop_last()) == 0);
        assert(be_val(c17@) == 17);
    }
    let n = state.elems.len();
    let mut out: Vec<Vec<u8>> = Vec::new();
    let mut i: usize = 0;
    while i < n
        invariant
            i <= n,
            out@.len() == i,
            forall|j: int| 0 <= j < i ==> views_of(out@)[j] == confuse_elem(state@[j], p),
        decreases n - i,
    {
        let e = &state.elems[i];
        let x2m = big_mod(&big_mul(e, e), prime);
        let x3m = big_mod(&big_mul(&x2m, e), prime);
        let x5m = big_mod(&big_mul(&x3m, &x2m), prime);
        let t = big_add(&x3m, &x5m);
        let t2 = big_add(&t, &c17);
        let red = big_mod(&t2, prime);
        proof {
            let x = state@[i as int];
            let xi = x as int;
            let pi = p as int;
            vstd::arithmetic::power::lemma_square_is_pow2(xi);
            vstd::arithmetic::power::lemma_pow1(xi);
            vstd::arithmetic::power::lemma_pow_adds(xi, 2, 1);
            vstd::arithmetic::power::lemma_pow_adds(xi, 3, 2);
            let a = pow(xi, 3);
            let b = pow(xi, 5);
            if x > 0 {
                vstd::arithmetic::power::lemma_pow_positive(xi, 3);
                vstd::arithmetic::power::lemma_pow_positive(xi, 5);
            } else {
                vstd::arithmetic::power::lemma0_pow(3);
                vstd::arithmetic::power::lemma0_pow(5);
            }
            vstd::arithmetic::div_mod::lemma_mul_mod_noop_left(xi * xi, xi, pi);
            assert(be_val(x3m@) == a % pi);
            vstd::arithmetic::div_mod::lemma_mul_mod_noop_general(a, xi * xi, pi);
            assert(be_val(x5m@) == b % pi);
            vstd::arithmetic::div_mod::lemma_add_mod_noop(a, b, pi);
            vstd::arithmetic::div_mod::lemma_add_mod_noop_right(17, a % pi + b % pi, pi);
            vstd::arithmetic::div_mod::lemma_add_mod_noop_right(17, a + b, pi);
            vstd::arithmetic::div_mod::lemma_mod_bound(a % pi + b % pi + 17, pi);
            assert(be_val(red@) == confuse_elem(x, p));
            lemma_views_push(out@, red);
        }
        out.push(red);
        i = i + 1;
    }
    let res = State { elems: out };
    proof {
        lemma_state_view(&res);
        assert(views_of(out@) =~= confuse_spec(state@, p));
    }
    res
}

/// One round: diffusion, then confusion; the result is again reduced.
pub fn PerformRound(params: &Params, state: &State) -> (r: State)
    requires
        params.wf(),
        state@.len() == StateSize,
    ensures
        r@ == round_spec(state@, params.p(), params.wb()),
        r@.len() == StateSize,
        state_ok(r@, params.p()),
{
    let d = ApplyLinearDiffusion(params, state);
    let c = ApplyNonLinearConfusion(params, &d);
    proof {
        params.lemma_wf_facts();
        lemma_confuse_in_range(d@, params.p());
    }
    c
}

/// The four extra diffusion and confusion passes applied after the last
/// block, with no further absorption.
#[verifier::loop_isolation(false)]
pub fn FinalizeState(params: &Params, state: &State) -> (r: State)
    requires
        params.wf(),
        state@.len() == StateSize,
    ensures
        r@ == rounds_spec(state@, 4, params.p(), params.wb()),
        r@.len() == StateSize,
        state_ok(r@, params.p()),
{
    let ghost p = params.p();
    let ghost wb = params.wb();
    proof {
        params.lemma_wf_facts();
    }
    let mut s = PerformRound(params, state);
    proof {
        assert(rounds_spec(state@, 0, p, wb) == state@);
        assert(rounds_spec(state@, 1, p, wb) == round_spec(state@, p, wb));
    }
    let mut t: usize = 1;
    while t < 4
        invariant
            1 <= t <= 4,
            s@.len() == StateSize,
            s@ == rounds_spec(state@, t as nat, p, wb),
            state_ok(s@, p),
        decreases 4 - t,
    {
        proof {
            assert(rounds_spec(state@, (t + 1) as nat, p, wb)
                == round_spec(rounds_spec(state@, t as nat, p, wb), p, wb));
        }
        s = PerformRound(params, &s);
        t = t + 1;
    }
    s
}

/// Round purity: the round is a function of the state value alone, so
/// two results of the round on the same input are identical.
pub proof fn lemma_round_pure(r1: Seq<nat>, r2: Seq<nat>, s: Seq<nat>, p: nat, wb: nat)
    requires
        r1 == round_spec(s, p, wb),
        r2 == round_spec(s, p, wb),
    ensures
        r1 == r2,
{
}

/// Confusion leaves every element below the modulus.
pub proof fn lemma_confuse_in_range(s: Seq<nat>, p: nat)
    requires
        p > 0,
    ensures
        state_ok(confuse_spec(s, p), p),
{
    assert forall|i: int| 0 <= i < confuse_spec(s, p).len() implies confuse_spec(s, p)[i] < p by {
        vstd::arithmetic::div_mod::lemma_mod_bound(
            pow(s[i] as int, 3) + pow(s[i] as int, 5) + 17,
            p as int,
        );
    }
}

/// A round leaves every element below the modulus, whatever the input.
pub proof fn lemma_round_in_range(s: Seq<nat>, p: nat, wb: nat)
    requires
        p > 0,
    ensures
        state_ok(round_spec(s, p, wb), p),
        round_spec(s, p, wb).len() == s.len(),
{
    lemma_confuse_in_range(diffuse_spec(s, p, wb), p);
}

/// Any run of rounds leaves every element below the modulus.
pub proof fn lemma_rounds_in_range(s: Seq<nat>, k: nat, p: nat, wb: nat)
    requires
        p > 0,
        k > 0,
    ensures
        state_ok(rounds_spec(s, k, p, wb), p),
        rounds_spec(s, k, p, wb).len() == s.len(),
    decreases k,
{
    if k > 1 {
        lemma_rounds_in_range(s, (k - 1) as nat, p, wb);
    }
    lemma_round_in_range(rounds_spec(s, (k - 1) as nat, p, wb), p, wb);
}

/// Updating one element with a value below the bound keeps the bound.
proof fn lemma_update_in_window(s: Seq<nat>, i: int, v: nat, bound: nat)
    requires
        0 <= i < s.len(),
        v < bound,
        state_ok(s, bound),
    ensures
        s.update(i, v).len() == s.len(),
        state_ok(s.update(i, v), bound),
{
    assert forall|q: int| 0 <= q < s.update(i, v).len() implies s.update(i, v)[q] < bound by {
        if q != i {
            assert(s.update(i, v)[q] == s[q]);
        }
    }
}

/// Adding a word into one slot keeps every element below the window.
proof fn lemma_absorb_add_in_window(s: Seq<nat>, w: nat, idx: int, p: nat, wb: nat)
    requires
        0 <= idx < s.len(),
        0 < p <= pow2(wb),
        state_ok(s, pow2(wb)),
    ensures
        absorb_add(s, w, idx, p).len() == s.len(),
        state_ok(absorb_add(s, w, idx, p), pow2(wb)),
{
    vstd::arithmetic::div_mod::lemma_mod_bound((s[idx] + w) as int, p as int);
    lemma_update_in_window(s, idx, (s[idx] + w) % p, pow2(wb));
}

/// The xor step keeps every element below the window.
proof fn lemma_absorb_xor_in_window(s: Seq<nat>, w: nat, nx: int, wb: nat)
    requires
        0 <= nx < s.len(),
        state_ok(s, pow2(wb)),
    ensures
        absorb_xor(s, w, nx, wb).len() == s.len(),
        state_ok(absorb_xor(s, w, nx, wb), pow2(wb)),
{
    vstd::arithmetic::power2::lemma_pow2_pos(wb);
    lemma_nat_and_le(w / 0x10000, mask_val(wb));
    lemma_nat_xor_bound(s[nx], nat_and(w / 0x10000, mask_val(wb)), wb);
    lemma_update_in_window(s, nx, nat_xor(s[nx], nat_and(w / 0x10000, mask_val(wb))), pow2(wb));
}

/// One absorbed word keeps every element below two to the word width.
pub proof fn lemma_absorb_word_in_window(s: Seq<nat>, w: nat, i: int, p: nat, wb: nat)
    requires
        s.len() > 0,
        0 <= i,
        0 < p <= pow2(wb),
        state_ok(s, pow2(wb)),
    ensures
        absorb_word(s, w, i, p, wb).len() == s.len(),
        state_ok(absorb_word(s, w, i, p, wb), pow2(wb)),
{
    let n = s.len() as int;
    vstd::arithmetic::div_mod::lemma_mod_bound(i, n);
    vstd::arithmetic::div_mod::lemma_mod_bound(i % n + 1, n);
    lemma_absorb_add_in_window(s, w, i % n, p, wb);
    lemma_absorb_xor_in_window(absorb_add(s, w, i % n, p), w, (i % n + 1) % n, wb);
}

/// Absorbing one block keeps every element below two to the word width.
pub proof fn lemma_absorb_words_in_window(s: Seq<nat>, b: Seq<u8>, k: int, p: nat, wb: nat)
    requires
        s.len() > 0,
        0 < p <= pow2(wb),
        state_ok(s, pow2(wb)),
    ensures
        absorb_words(s, b, k, p, wb).len() == s.len(),
        state_ok(absorb_words(s, b, k, p, wb), pow2(wb)),
    decreases k,
{
    if k > 0 {
        lemma_absorb_words_in_window(s, b, k - 1, p, wb);
        lemma_absorb_word_in_window(
            absorb_words(s, b, k - 1, p, wb),
            be_val(zpad8(b).subrange(8 * (k - 1), 8 * k)),
            k - 1,
            p,
            wb,
        );
    }
}

/// Absorbing a block keeps the state inside the word-width window.
pub proof fn lemma_absorb_in_window(s: Seq<nat>, b: Seq<u8>, p: nat, wb: nat)
    requires
        s.len() > 0,
        0 < p <= pow2(wb),
        state_ok(s, pow2(wb)),
    ensures
        absorb_spec(s, b, p, wb).len() == s.len(),
        state_ok(absorb_spec(s, b, p, wb), pow2(wb)),
{
    lemma_absorb_words_in_window(s, b, zpad8(b).len() as int / 8, p, wb);
}

} // verus!

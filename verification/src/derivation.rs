//! Deterministic derivation of domain-separated constants, and the
//! initial state built from them.

use vstd::prelude::*;
use vstd::string::StringSliceAdditionalSpecFns;
use crate::bytes::{be_val, push_all, sub_bytes};
use crate::bigops::big_mod;
use crate::xof::{shake128_of, shake128_bytes};
use crate::params::{Params, BytesPerElemValue};
use crate::state::{State, state_ok, lemma_state_view};
use crate::StateSize;

verus! {

/// The construction tag prepended to every derivation seed.
pub open spec fn seed_tag() -> Seq<u8> {
    "HLS-1024-v0.2".spec_bytes()
}

/// The domain separator for constant derivation.
pub open spec fn const_sep() -> Seq<u8> {
    "::const::".spec_bytes()
}

/// The label of the initial-state derivation.
pub open spec fn init_label() -> Seq<u8> {
    "init".spec_bytes()
}

/// The seed of a labelled constant derivation.
pub open spec fn derive_seed(label: Seq<u8>) -> Seq<u8> {
    seed_tag() + const_sep() + label
}

/// The value of the `i`-th of `count` integers squeezed from SHAKE128.
pub open spec fn shake_int(seed: Seq<u8>, count: nat, bpi: nat, i: int) -> nat {
    be_val(shake128_of(seed, count * bpi).subrange(i * (bpi as int), (i + 1) * (bpi as int)))
}

/// One derived constant: the squeezed integer reduced by the modulus.
pub open spec fn derived_const(label: Seq<u8>, n: nat, bpe: nat, i: int, p: nat) -> nat {
    shake_int(derive_seed(label), n, bpe, i) % p
}

/// The initial state vector, derived under the label `init`.
pub open spec fn init_state_spec(p: nat, bpe: nat) -> Seq<nat> {
    Seq::new(StateSize as nat, |i: int| derived_const(init_label(), StateSize as nat, bpe, i, p))
}

/// The byte width used for one squeezed integer.
pub open spec fn chosen_width(bytes_per_int: Option<usize>, bpe: nat) -> nat {
    if bytes_per_int is Some {
        bytes_per_int.unwrap() as nat
    } else {
        bpe
    }
}

/// Squeezes `count` integers of `bytes_per_int` bytes each (the element
/// width when none is given) from SHAKE128 over the seed.
#[verifier::loop_isolation(false)]
pub fn ShakeInts(params: &Params, seed: &Vec<u8>, count: usize, bytes_per_int: Option<usize>) -> (r: Vec<Vec<u8>>)
    requires
        params.wf(),
        (count as nat) * chosen_width(bytes_per_int, params.bpe()) <= usize::MAX as nat,
    ensures
        r@.len() == count,
        forall|i: int| 0 <= i < count ==> r@[i]@ == shake128_of(
            seed@,
            (count as nat) * chosen_width(bytes_per_int, params.bpe()),
        ).subrange(
            i * (chosen_width(bytes_per_int, params.bpe()) as int),
            (i + 1) * (chosen_width(bytes_per_int, params.bpe()) as int),
        ),
{
    let ghost cw = chosen_width(bytes_per_int, params.bpe());
    let bpi = match bytes_per_int {
        Some(b) => b,
        None => BytesPerElemValue(params),
    };
    let total = count * bpi;
    let raw = shake128_bytes(seed, total);
    let mut out: Vec<Vec<u8>> = Vec::new();
    let mut i: usize = 0;
    while i < count
        invariant
            i <= count,
            out@.len() == i,
            forall|j: int| 0 <= j < i ==> out@[j]@ == raw@.subrange(
                j * (bpi as int),
                (j + 1) * (bpi as int),
            ),
        decreases count - i,
    {
        proof {
            assert((i + 1) * (bpi as int) <= (count as int) * (bpi as int)) by (nonlinear_arith)
                requires
                    i as int + 1 <= count as int,
                    bpi as int >= 0,
            ;
            assert((i as int) * (bpi as int) + bpi as int == (i + 1) * (bpi as int))
                by (nonlinear_arith);
        }
        let chunk = sub_bytes(&raw, i * bpi, bpi);
        out.push(chunk);
        i = i + 1;
    }
    out
}

/// Derives `n` integers below the modulus under the given label.
#[verifier::loop_isolation(false)]
pub fn DeriveConst(params: &Params, label: &[u8], n: usize) -> (r: Vec<Vec<u8>>)
    requires
        params.wf(),
        (n as nat) * params.bpe() <= usize::MAX as nat,
    ensures
        r@.len() == n,
        forall|i: int| 0 <= i < n ==> be_val(r@[i]@) == derived_const(
            label@,
            n as nat,
            params.bpe(),
            i,
            params.p(),
        ),
        forall|i: int| 0 <= i < n ==> be_val(r@[i]@) < params.p(),
{
    proof {
        params.lemma_wf_facts();
    }
    let mut seed: Vec<u8> = Vec::new();
    seed = push_all(seed, "HLS-1024-v0.2".as_bytes());
    seed = push_all(seed, "::const::".as_bytes());
    seed = push_all(seed, label);
    proof {
        assert(seed@ =~= derive_seed(label@));
    }
    let ints = ShakeInts(params, &seed, n, None);
    let prime = params.prime_bytes();
    let mut out: Vec<Vec<u8>> = Vec::new();
    let mut i: usize = 0;
    while i < n
        invariant
            i <= n,
            out@.len() == i,
            forall|j: int| 0 <= j < i ==> be_val(out@[j]@) == derived_const(
                label@,
                n as nat,
                params.bpe(),
                j,
                params.p(),
            ),
            forall|j: int| 0 <= j < i ==> be_val(out@[j]@) < params.p(),
        decreases n - i,
    {
        let red = big_mod(&ints[i], prime);
        proof {
            vstd::arithmetic::div_mod::lemma_mod_bound(
                be_val(ints@[i as int]@) as int,
                params.p() as int,
            );
        }
        out.push(red);
        i = i + 1;
    }
    out
}

/// The initial state: the unique entry point into the state space.
pub fn InitializeState(params: &Params) -> (r: State)
    requires
        params.wf(),
    ensures
        r@ == init_state_spec(params.p(), params.bpe()),
        r@.len() == StateSize,
        state_ok(r@, params.p()),
{
    proof {
        params.lemma_wf_facts();
    }
    let v = DeriveConst(params, "init".as_bytes(), StateSize);
    let st = State { elems: v };
    proof {
        lemma_state_view(&st);
        assert(st@ =~= init_state_spec(params.p(), params.bpe()));
    }
    st
}

} // verus!

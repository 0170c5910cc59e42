//! Digest extraction: the final state is serialized element by element
//! into a second, independently domain-separated XOF, and the digest is
//! squeezed from it.

use vstd::prelude::*;
use vstd::arithmetic::power::pow;
use vstd::arithmetic::power2::pow2;
use vstd::string::StringSliceAdditionalSpecFns;
use crate::bytes::{be_val, fixed_bytes, push_all, to_width};
use crate::xof::{shake256_of, shake256_bytes};
use crate::params::{Params, BytesPerElemValue};
use crate::state::{State, state_ok, lemma_state_view};
use crate::derivation::seed_tag;
use crate::OutputBitLength;

verus! {

/// The domain separator for digest extraction.
pub open spec fn extract_sep() -> Seq<u8> {
    "::extract".spec_bytes()
}

/// The state elements serialized in order, each in exactly `w` bytes.
pub open spec fn elems_bytes(s: Seq<nat>, w: nat) -> Seq<u8>
    decreases s.len(),
{
    if s.len() == 0 {
        Seq::empty()
    } else {
        elems_bytes(s.drop_last(), w) + fixed_bytes(s.last(), w)
    }
}

/// The seed fed to the extraction XOF.
pub open spec fn extract_seed(s: Seq<nat>, w: nat) -> Seq<u8> {
    seed_tag() + extract_sep() + elems_bytes(s, w)
}

/// Serializes the state through the extraction XOF and squeezes the
/// fixed-length digest.
#[verifier::loop_isolation(false)]
pub fn ExtractDigest(params: &Params, state: &State) -> (r: Vec<u8>)
    requires
        params.wf(),
        state_ok(state@, pow2(params.wb())),
    ensures
        r@ == shake256_of(extract_seed(state@, params.bpe()), 128),
        r@.len() == 128,
{
    proof {
        params.lemma_wf_facts();
        lemma_state_view(state);
    }
    let bpe = BytesPerElemValue(params);
    let mut seed: Vec<u8> = Vec::new();
    seed = push_all(seed, "HLS-1024-v0.2".as_bytes());
    seed = push_all(seed, "::extract".as_bytes());
    proof {
        assert(seed@ =~= seed_tag() + extract_sep());
        assert(state@.take(0) =~= Seq::<nat>::empty());
        assert(seed@ + elems_bytes(state@.take(0), bpe as nat) =~= seed@);
    }
    let ghost base = seed@;
    let n = state.len();
    let mut i: usize = 0;
    while i < n
        invariant
            i <= n,
            seed@ == base + elems_bytes(state@.take(i as int), params.bpe()),
        decreases n - i,
    {
        let e = state.elem(i);
        let fb = to_width(e, bpe);
        seed = push_all(seed, fb.as_slice());
        proof {
            assert(state@.take(i + 1).drop_last() =~= state@.take(i as int));
            assert(state@.take(i + 1).last() == state@[i as int]);
            assert(base + elems_bytes(state@.take(i + 1), params.bpe())
                =~= (base + elems_bytes(state@.take(i as int), params.bpe())) + fb@);
        }
        i = i + 1;
    }
    proof {
        assert(state@.take(n as int) =~= state@);
        assert(seed@ =~= extract_seed(state@, params.bpe()));
    }
    shake256_bytes(&seed, OutputBitLength / 8)
}

} // verus!

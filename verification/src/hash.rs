//! Padding, block splitting, and the top-level hash pipeline.

use vstd::prelude::*;
use vstd::arithmetic::power2::pow2;
use crate::bytes::sub_bytes;
use crate::xof::shake256_of;
use crate::params::Params;
use crate::state::{State, state_ok};
use crate::derivation::{InitializeState, init_state_spec};
use crate::rounds::{
    AbsorbMessageBlock, PerformRound, FinalizeState, absorb_spec, rounds_spec,
    lemma_absorb_in_window, lemma_rounds_in_range,
};
use crate::extract::{ExtractDigest, extract_seed};
use crate::{StateSize, RoundCount, BlockBytes};

verus! {

/// Number of zero bytes between the `0x01` and `0x80` padding marks.
pub open spec fn pad_len(l: nat) -> nat {
    if (l + 2) % 64 == 0 {
        0
    } else {
        (64 - (l + 2) % 64) as nat
    }
}

/// The padded message: a `0x01` byte, then zeros, then a `0x80` byte,
/// filling up to a multiple of the rate.
pub open spec fn pad_spec(m: Seq<u8>) -> Seq<u8> {
    m + seq![1u8] + Seq::new(pad_len(m.len()), |i: int| 0u8) + seq![0x80u8]
}

/// How many rate-sized blocks the padded message holds.
pub open spec fn num_blocks(m: Seq<u8>) -> nat {
    pad_spec(m).len() / 64
}

/// The `i`-th rate-sized block of the padded message.
pub open spec fn block_at(m: Seq<u8>, i: int) -> Seq<u8> {
    pad_spec(m).subrange(64 * i, 64 * i + 64)
}

/// Padding always adds at least two bytes and fills to a positive
/// multiple of the rate, for every message length, the empty one
/// included.
pub proof fn lemma_pad_props(m: Seq<u8>)
    ensures
        pad_spec(m).len() == m.len() + 2 + pad_len(m.len()),
        pad_spec(m).len() % 64 == 0,
        pad_spec(m).len() >= m.len() + 2,
        pad_spec(m).len() > 0,
        num_blocks(m) > 0,
        64 * num_blocks(m) == pad_spec(m).len(),
{
    let l = m.len();
    vstd::arithmetic::div_mod::lemma_mod_bound((l + 2) as int, 64);
    vstd::arithmetic::div_mod::lemma_fundamental_div_mod((l + 2) as int, 64);
    vstd::arithmetic::div_mod::lemma_mod_multiples_basic(((l + 2) / 64 + 1) as int, 64);
    vstd::arithmetic::div_mod::lemma_mod_multiples_basic(((l + 2) / 64) as int, 64);
    vstd::arithmetic::div_mod::lemma_fundamental_div_mod(pad_spec(m).len() as int, 64);
}

/// Pads the message and splits it into rate-sized blocks.
#[verifier::loop_isolation(false)]
pub fn SplitIntoBlocks(message: &Vec<u8>) -> (r: Vec<Vec<u8>>)
    requires
        message@.len() + 66 <= usize::MAX,
    ensures
        r@.len() == num_blocks(message@),
        forall|i: int| 0 <= i < r@.len() ==> r@[i]@ == block_at(message@, i),
        forall|i: int| 0 <= i < r@.len() ==> r@[i]@.len() == 64,
{
    proof {
        lemma_pad_props(message@);
    }
    let l = message.len();
    let rem = (l + 2) % 64;
    let padlen = if rem == 0 { 0 } else { 64 - rem };
    let mut padded = sub_bytes(message, 0, l);
    proof {
        assert(padded@ =~= message@);
    }
    padded.push(0x01);
    let mut z: usize = 0;
    while z < padlen
        invariant
            z <= padlen,
            padded@.len() == l + 1 + z,
            padded@ == message@ + seq![1u8] + Seq::new(z as nat, |i: int| 0u8),
        decreases padlen - z,
    {
        padded.push(0x00);
        proof {
            assert(padded@ =~= message@ + seq![1u8] + Seq::new((z + 1) as nat, |i: int| 0u8));
        }
        z = z + 1;
    }
    padded.push(0x80);
    proof {
        assert(padded@ =~= pad_spec(message@));
    }
    let nb = padded.len() / 64;
    let mut blocks: Vec<Vec<u8>> = Vec::new();
    let mut i: usize = 0;
    while i < nb
        invariant
            i <= nb,
            blocks@.len() == i,
            forall|j: int| 0 <= j < i ==> blocks@[j]@ == block_at(message@, j),
            forall|j: int| 0 <= j < i ==> blocks@[j]@.len() == 64,
        decreases nb - i,
    {
        let blk = sub_bytes(&padded, 64 * i, 64);
        blocks.push(blk);
        i = i + 1;
    }
    blocks
}

/// The state after the first `k` blocks are absorbed, each followed by
/// the full run of rounds.
pub open spec fn state_after_blocks(m: Seq<u8>, k: int, p: nat, wb: nat, bpe: nat) -> Seq<nat>
    decreases k,
{
    if k <= 0 {
        init_state_spec(p, bpe)
    } else {
        rounds_spec(
            absorb_spec(state_after_blocks(m, k - 1, p, wb, bpe), block_at(m, k - 1), p, wb),
            16,
            p,
            wb,
        )
    }
}

/// The digest of a message under the given parameters.
pub open spec fn hash_spec(m: Seq<u8>, p: nat, wb: nat, bpe: nat) -> Seq<u8> {
    shake256_of(
        extract_seed(
            rounds_spec(state_after_blocks(m, num_blocks(m) as int, p, wb, bpe), 4, p, wb),
            bpe,
        ),
        128,
    )
}

/// Determinism: the digest is a function of the message and the frozen
/// parameters alone, so two digests of the same message under the same
/// parameters are equal, in whatever process they were computed.
pub proof fn lemma_hash_deterministic(
    d1: Seq<u8>,
    d2: Seq<u8>,
    m: Seq<u8>,
    p: nat,
    wb: nat,
    bpe: nat,
)
    requires
        d1 == hash_spec(m, p, wb, bpe),
        d2 == hash_spec(m, p, wb, bpe),
    ensures
        d1 == d2,
{
}

/// The whole pipeline: initialize, absorb each block with its rounds,
/// finalize, extract. The digest is a function of the message and the
/// frozen parameters alone.
#[verifier::loop_isolation(false)]
pub fn Hls1024Hash(params: &Params, message: &Vec<u8>) -> (r: Vec<u8>)
    requires
        params.wf(),
        message@.len() + 66 <= usize::MAX,
    ensures
        r@ == hash_spec(message@, params.p(), params.wb(), params.bpe()),
        r@.len() == 128,
{
    let ghost p = params.p();
    let ghost wb = params.wb();
    let ghost bpe = params.bpe();
    proof {
        params.lemma_wf_facts();
    }
    let blocks = SplitIntoBlocks(message);
    let mut state = InitializeState(params);
    proof {
        assert(state_ok(state@, pow2(wb)));
    }
    let nb = blocks.len();
    let mut b: usize = 0;
    while b < nb
        invariant
            b <= nb,
            state@ == state_after_blocks(message@, b as int, p, wb, bpe),
            state@.len() == StateSize,
            state_ok(state@, pow2(wb)),
        decreases nb - b,
    {
        let ghost before = state@;
        proof {
            lemma_absorb_in_window(before, blocks@[b as int]@, p, wb);
        }
        state = AbsorbMessageBlock(params, &state, &blocks[b]);
        let ghost absorbed = state@;
        let mut t: usize = 0;
        while t < RoundCount
            invariant
                t <= RoundCount,
                state@ == rounds_spec(absorbed, t as nat, p, wb),
                state@.len() == StateSize,
            decreases RoundCount - t,
        {
            proof {
                assert(rounds_spec(absorbed, (t + 1) as nat, p, wb)
                    == crate::rounds::round_spec(rounds_spec(absorbed, t as nat, p, wb), p, wb));
            }
            state = PerformRound(params, &state);
            t = t + 1;
        }
        proof {
            lemma_rounds_in_range(absorbed, 16, p, wb);
            assert(state_after_blocks(message@, b as int + 1, p, wb, bpe)
                == rounds_spec(absorb_spec(before, block_at(message@, b as int), p, wb), 16, p, wb));
            assert(state_ok(state@, pow2(wb)));
        }
        b = b + 1;
    }
    state = FinalizeState(params, &state);
    proof {
        assert(state_ok(state@, pow2(wb)));
    }
    ExtractDigest(params, &state)
}

} // verus!

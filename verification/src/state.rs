//! The internal state vector: an ordered sequence of arbitrary-precision
//! elements, viewed in specifications as a sequence of naturals.

use vstd::prelude::*;
use crate::bytes::be_val;

verus! {

/// Spec-level contents of a vector of big-endian encoded elements.
pub open spec fn views_of(v: Seq<Vec<u8>>) -> Seq<nat> {
    v.map(|i: int, e: Vec<u8>| be_val(e@))
}

/// The internal state of one hash computation.
pub struct State {
    pub(crate) elems: Vec<Vec<u8>>,
}

impl View for State {
    type V = Seq<nat>;

    closed spec fn view(&self) -> Seq<nat> {
        views_of(self.elems@)
    }
}

/// Every element lies below `bound`.
pub open spec fn state_ok(s: Seq<nat>, bound: nat) -> bool {
    forall|i: int| 0 <= i < s.len() ==> s[i] < bound
}

impl State {
    /// Number of elements.
    pub fn len(&self) -> (r: usize)
        ensures
            r == self@.len(),
    {
        self.elems.len()
    }

    /// The bytes of the element at `i`.
    pub fn elem(&self, i: usize) -> (r: &Vec<u8>)
        requires
            i < self@.len(),
        ensures
            be_val(r@) == self@[i as int],
    {
        &self.elems[i]
    }
}

/// The view is exactly the element values.
pub(crate) proof fn lemma_state_view(s: &State)
    ensures
        s@ == views_of(s.elems@),
        s@.len() == s.elems@.len(),
        forall|i: int| 0 <= i < s.elems@.len() ==> s@[i] == be_val(s.elems@[i]@),
{
}

pub proof fn lemma_views_update(v: Seq<Vec<u8>>, i: int, e: Vec<u8>)
    requires
        0 <= i < v.len(),
    ensures
        views_of(v.update(i, e)) =~= views_of(v).update(i, be_val(e@)),
{
}

pub proof fn lemma_views_push(v: Seq<Vec<u8>>, e: Vec<u8>)
    ensures
        views_of(v.push(e)) =~= views_of(v).push(be_val(e@)),
{
}

} // verus!

//! The reduction order of numpy's pairwise summation.
//!
//! numpy reduces with `pairwise_sum`: spans of fewer than eight elements are
//! added left to right, spans of up to 128 elements use eight interleaved
//! accumulators, and larger spans recurse on a half split rounded down to a
//! multiple of eight. The floating-point additions themselves are done by the
//! caller; this module decides, for a span length, which of the three steps
//! applies and where a span is split.
use vstd::prelude::*;

verus! {

/// The largest span reduced without splitting.
pub const BLOCK: usize = 128;

/// How a span of a given length is reduced.
#[derive(Clone, Copy, Debug, PartialEq, Eq, Structural)]
pub enum PairwiseStep {
    /// Fewer than eight elements: a left-to-right sum.
    Sequential,
    /// Eight to `BLOCK` elements: eight interleaved accumulators, then the
    /// remaining elements left to right.
    Unrolled,
    /// More than `BLOCK` elements: the first `half` elements and the rest are
    /// reduced separately and their results added.
    Split { half: usize },
}

/// Where a span of `n > BLOCK` elements is split: half of it, rounded down to
/// a multiple of eight.
pub open spec fn split_point(n: nat) -> nat {
    (n / 2 - (n / 2) % 8) as nat
}

/// The step that reduces a span of `n` elements.
pub open spec fn pairwise_step_of(n: nat) -> PairwiseStep {
    if n < 8 {
        PairwiseStep::Sequential
    } else if n <= BLOCK {
        PairwiseStep::Unrolled
    } else {
        PairwiseStep::Split { half: split_point(n) as usize }
    }
}

/// The lengths of the spans that are reduced without splitting, in the order
/// in which they cover a span of `n` elements.
pub open spec fn leaf_lengths(n: nat) -> Seq<nat>
    decreases n,
{
    if n <= BLOCK {
        seq![n]
    } else {
        leaf_lengths(split_point(n)) + leaf_lengths((n - split_point(n)) as nat)
    }
}

/// The total length of a sequence of spans.
pub open spec fn total_length(s: Seq<nat>) -> nat
    decreases s.len(),
{
    if s.len() == 0 {
        0
    } else {
        total_length(s.drop_last()) + s.last()
    }
}

/// Decides how a span of `n` elements is reduced.
pub fn pairwise_step(n: usize) -> (step: PairwiseStep)
    ensures
        step == pairwise_step_of(n as nat),
        n < 8 <==> step == PairwiseStep::Sequential,
        (8 <= n && n <= BLOCK) <==> step == PairwiseStep::Unrolled,
        n > BLOCK <==> step is Split,
        step matches PairwiseStep::Split { half } ==> {
            &&& half % 8 == 0
            &&& n / 2 - 8 < half <= n / 2
            &&& 0 < half
            &&& half <= n - half
            &&& n - half < n
        },
{
    if n < 8 {
        PairwiseStep::Sequential
    } else if n <= BLOCK {
        PairwiseStep::Unrolled
    } else {
        let mut half = n / 2;
        half -= half % 8;
        PairwiseStep::Split { half }
    }
}

proof fn lemma_total_length_append(a: Seq<nat>, b: Seq<nat>)
    ensures
        total_length(a + b) == total_length(a) + total_length(b),
    decreases b.len(),
{
    if b.len() == 0 {
        assert(a + b =~= a);
    } else {
        lemma_total_length_append(a, b.drop_last());
        assert((a + b).drop_last() =~= a + b.drop_last());
    }
}

/// A span longer than `BLOCK` is split at half its length rounded down to a
/// multiple of eight: the largest multiple of eight not above `n / 2`; shorter
/// spans are summed left to right below eight elements and with eight
/// accumulators from eight to `BLOCK` elements.
pub proof fn law_pairwise_split_point(n: nat)
    requires
        n <= usize::MAX,
    ensures
        n < 8 <==> pairwise_step_of(n) == PairwiseStep::Sequential,
        (8 <= n && n <= BLOCK) <==> pairwise_step_of(n) == PairwiseStep::Unrolled,
        n > BLOCK ==> (pairwise_step_of(n) matches PairwiseStep::Split { half } && half % 8 == 0
            && n / 2 - 8 < half <= n / 2),
{
}

/// The pairwise reduction visits a span exactly once: its unsplit spans are
/// non-empty (for a non-empty span), no longer than `BLOCK`, and their lengths
/// add up to the span's length.
pub proof fn law_leaves_cover_span(n: nat)
    ensures
        total_length(leaf_lengths(n)) == n,
        forall|i: int| 0 <= i < leaf_lengths(n).len() ==> #[trigger] leaf_lengths(n)[i] <= BLOCK,
        n > 0 ==> forall|i: int| 0 <= i < leaf_lengths(n).len() ==> #[trigger] leaf_lengths(n)[i] > 0,
    decreases n,
{
    if n <= BLOCK {
        let l = seq![n];
        assert(l.drop_last() =~= Seq::<nat>::empty());
        assert(total_length(l) == total_length(l.drop_last()) + l.last());
        assert(leaf_lengths(n) == l);
    } else {
        let h = split_point(n);
        let r = (n - h) as nat;
        law_leaves_cover_span(h);
        law_leaves_cover_span(r);
        lemma_total_length_append(leaf_lengths(h), leaf_lengths(r));
        let l = leaf_lengths(n);
        assert(l == leaf_lengths(h) + leaf_lengths(r));
        assert forall|i: int| 0 <= i < l.len() implies #[trigger] l[i] <= BLOCK && (n > 0 ==> l[i] > 0) by {
            if i < leaf_lengths(h).len() {
                assert(l[i] == leaf_lengths(h)[i]);
            } else {
                assert(l[i] == leaf_lengths(r)[i - leaf_lengths(h).len()]);
            }
        }
    }
}

} // verus!

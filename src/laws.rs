//! Laws that relate the queries of a built index.
use vstd::prelude::*;
use crate::count::{
    count, lemma_count_take_step, lemma_count_zeros_ones, lemma_positions, positions,
};
use crate::index::BitIndex;

verus! {

/// Before any position `i`, the zeros and the ones together number `i`:
/// `rank(0, i) + rank(1, i) == i`.
pub proof fn lemma_rank_zeros_plus_ones(index: &BitIndex, i: int)
    requires
        index.wf(),
        0 <= i <= index@.len(),
    ensures
        count(index@.take(i), 0) + count(index@.take(i), 1) == i,
{
    index.lemma_wf_bits();
    let s = index@.take(i);
    assert forall|j: int| 0 <= j < s.len() implies #[trigger] s[j] <= 1 by {
        assert(s[j] == index@[j]);
    }
    lemma_count_zeros_ones(s);
}

/// The bit at position `i` counts toward the rank of its own value exactly
/// once: `rank(access(i), i + 1) - rank(access(i), i) == 1`.
pub proof fn lemma_rank_counts_own_bit(index: &BitIndex, i: int)
    requires
        index.wf(),
        0 <= i < index@.len(),
    ensures
        count(index@.take(i + 1), index@[i]) == count(index@.take(i), index@[i]) + 1,
{
    lemma_count_take_step(index@, index@[i], i);
}

/// Select and rank undo each other: for `1 <= i <= total_count(b)`, the
/// position `p = select(b, i)` holds `b` and `rank(b, p + 1) == i`.
pub proof fn lemma_select_rank_round_trip(index: &BitIndex, b: u32, i: int)
    requires
        index.wf(),
        b <= 1,
        1 <= i <= count(index@, b),
    ensures
        0 <= positions(index@, b)[i - 1] < index@.len(),
        index@[positions(index@, b)[i - 1]] == b,
        count(index@.take(positions(index@, b)[i - 1] + 1), b) == i,
{
    lemma_positions(index@, b);
    let p = positions(index@, b)[i - 1];
    lemma_count_take_step(index@, b, p);
}

} // verus!

//! The mathematical model of rank and select over a sequence of bits.
use vstd::prelude::*;

verus! {

/// The number of entries of `s` equal to `b`.
pub open spec fn count(s: Seq<u32>, b: u32) -> nat
    decreases s.len(),
{
    if s.len() == 0 {
        0
    } else {
        count(s.drop_last(), b) + if s.last() == b {
            1nat
        } else {
            0nat
        }
    }
}

/// The positions of the entries of `s` equal to `b`, in increasing order.
pub open spec fn positions(s: Seq<u32>, b: u32) -> Seq<int>
    decreases s.len(),
{
    if s.len() == 0 {
        Seq::empty()
    } else {
        let p = positions(s.drop_last(), b);
        if s.last() == b {
            p.push(s.len() - 1)
        } else {
            p
        }
    }
}

/// Every entry of `s` is a bit.
pub open spec fn all_bits(s: Seq<u32>) -> bool {
    forall|i: int| 0 <= i < s.len() ==> #[trigger] s[i] <= 1
}

/// A value other than 0 and 1 never occurs among bits.
pub proof fn lemma_count_non_bit(s: Seq<u32>, b: u32)
    requires
        all_bits(s),
        b > 1,
    ensures
        count(s, b) == 0,
        positions(s, b).len() == 0,
    decreases s.len(),
{
    if s.len() > 0 {
        assert(all_bits(s.drop_last()));
        lemma_count_non_bit(s.drop_last(), b);
    }
}

/// Extending a prefix by one entry adds one to the count when the entry matches.
pub proof fn lemma_count_take_step(s: Seq<u32>, b: u32, i: int)
    requires
        0 <= i < s.len(),
    ensures
        count(s.take(i + 1), b) == count(s.take(i), b) + if s[i] == b {
            1nat
        } else {
            0nat
        },
{
    assert(s.take(i + 1).drop_last() =~= s.take(i));
}

/// A count is at most the length of the sequence.
pub proof fn lemma_count_le_len(s: Seq<u32>, b: u32)
    ensures
        count(s, b) <= s.len(),
    decreases s.len(),
{
    if s.len() > 0 {
        lemma_count_le_len(s.drop_last(), b);
    }
}

/// Over a sequence of bits, the zeros and the ones make up the whole length.
pub proof fn lemma_count_zeros_ones(s: Seq<u32>)
    requires
        all_bits(s),
    ensures
        count(s, 0) + count(s, 1) == s.len(),
    decreases s.len(),
{
    if s.len() > 0 {
        assert(all_bits(s.drop_last()));
        lemma_count_zeros_ones(s.drop_last());
    }
}

/// There is one position for each matching entry; the positions increase, lie
/// in range, hold `b`, and the `j`-th of them has `j` matches before it.
pub proof fn lemma_positions(s: Seq<u32>, b: u32)
    ensures
        positions(s, b).len() == count(s, b),
        forall|j: int|
            0 <= j < positions(s, b).len() ==> {
                let p = #[trigger] positions(s, b)[j];
                &&& 0 <= p < s.len()
                &&& s[p] == b
                &&& count(s.take(p), b) == j
            },
        forall|j: int, k: int|
            0 <= j < k < positions(s, b).len() ==> #[trigger] positions(s, b)[j]
                < #[trigger] positions(s, b)[k],
    decreases s.len(),
{
    if s.len() > 0 {
        let t = s.drop_last();
        lemma_positions(t, b);
        assert forall|j: int| 0 <= j < positions(t, b).len() implies {
            let p = #[trigger] positions(t, b)[j];
            &&& s[p] == b
            &&& count(s.take(p), b) == j
        } by {
            let p = positions(t, b)[j];
            assert(s.take(p) =~= t.take(p));
        }
        if s.last() == b {
            assert(s.take(s.len() - 1) =~= t);
            lemma_positions(t, b);
        }
    }
}

/// A matching entry at `p` is the occurrence numbered by the count before it.
pub proof fn lemma_position_of_match(s: Seq<u32>, b: u32, p: int)
    requires
        0 <= p < s.len(),
        s[p] == b,
    ensures
        count(s.take(p), b) < positions(s, b).len(),
        positions(s, b)[count(s.take(p), b) as int] == p,
    decreases s.len(),
{
    let t = s.drop_last();
    lemma_positions(t, b);
    lemma_positions(s, b);
    if p == s.len() - 1 {
        assert(s.take(p) =~= t);
    } else {
        assert(t.take(p) =~= s.take(p));
        lemma_position_of_match(t, b, p);
    }
}

} // verus!

//! The auxiliary tables and the queries that read them, over a packed array
//! whose first `n` bits are the bit vector.
use vstd::prelude::*;
use crate::bits::{access, packed_bit, unpack};
use crate::blocks::{lemma_block_exists, lemma_block_of, lemma_num_blocks_step, num_blocks};
use crate::count::{
    count, lemma_count_le_len, lemma_count_take_step,
    lemma_position_of_match, lemma_positions, positions,
};

verus! {

/// The bit size of a block in the default layout.
pub const BLOCK_SIZE: usize = 512;

/// `t` holds, for each block of `s`, the number of entries equal to `b`
/// strictly before the block's first position.
pub open spec fn is_rank_table(t: Seq<usize>, s: Seq<u32>, b: u32, block_size: nat) -> bool {
    &&& t.len() == num_blocks(s.len(), block_size)
    &&& forall|k: int| 0 <= k < t.len() ==> #[trigger] t[k] == count(s.take(k * block_size), b)
}

/// `t` holds the position of every entry of `s` equal to `b`, in increasing order.
pub open spec fn is_select_table(t: Seq<usize>, s: Seq<u32>, b: u32) -> bool {
    &&& t.len() == positions(s, b).len()
    &&& forall|j: int| 0 <= j < t.len() ==> #[trigger] t[j] == positions(s, b)[j]
}

/// The bits of a packed array within reach of an index of length `n`.
proof fn lemma_unpack_index(bytes: Seq<u8>, n: nat, i: int)
    requires
        n <= 8 * bytes.len(),
        0 <= i < n,
    ensures
        i / 8 < bytes.len(),
        unpack(bytes, n)[i] == packed_bit(bytes, i),
{
}

/// Builds the rank tables for zeros and for ones of the first `n` bits of a
/// packed array, in one pass over the bits.
pub fn build_rank_tables(bit_vector: &Vec<u8>, n: usize, block_size: usize) -> (r: (
    Vec<usize>,
    Vec<usize>,
))
    requires
        n <= 8 * bit_vector@.len(),
        block_size > 0,
    ensures
        is_rank_table(r.0@, unpack(bit_vector@, n as nat), 0, block_size as nat),
        is_rank_table(r.1@, unpack(bit_vector@, n as nat), 1, block_size as nat),
{
    let ghost s = unpack(bit_vector@, n as nat);
    let ghost bs = block_size as nat;
    let mut rank0_table: Vec<usize> = Vec::new();
    let mut rank1_table: Vec<usize> = Vec::new();
    let mut rank0: usize = 0;
    let mut rank1: usize = 0;
    let mut i: usize = 0;
    while i < n
        invariant
            i <= n,
            n <= 8 * bit_vector@.len(),
            block_size > 0,
            s == unpack(bit_vector@, n as nat),
            bs == block_size as nat,
            rank0 == count(s.take(i as int), 0),
            rank1 == count(s.take(i as int), 1),
            rank0_table@.len() == num_blocks(i as nat, bs),
            rank1_table@.len() == num_blocks(i as nat, bs),
            forall|k: int|
                0 <= k < rank0_table@.len() ==> #[trigger] rank0_table@[k] == count(
                    s.take(k * bs),
                    0,
                ),
            forall|k: int|
                0 <= k < rank1_table@.len() ==> #[trigger] rank1_table@[k] == count(
                    s.take(k * bs),
                    1,
                ),
        decreases n - i,
    {
        proof {
            lemma_num_blocks_step(i as nat, bs);
            lemma_unpack_index(bit_vector@, n as nat, i as int);
            lemma_count_take_step(s, 0, i as int);
            lemma_count_take_step(s, 1, i as int);
            lemma_count_le_len(s.take(i as int + 1), 0);
            lemma_count_le_len(s.take(i as int + 1), 1);
        }
        if i % block_size == 0 {
            rank0_table.push(rank0);
            rank1_table.push(rank1);
        }
        let bit = access(bit_vector, i);
        if bit == 0 {
            rank0 += 1;
        } else {
            rank1 += 1;
        }
        i += 1;
    }
    (rank0_table, rank1_table)
}

/// Builds the select tables for zeros and for ones of the first `n` bits of a
/// packed array, in one pass over the bits.
pub fn build_select_tables(bit_vector: &Vec<u8>, n: usize) -> (r: (Vec<usize>, Vec<usize>))
    requires
        n <= 8 * bit_vector@.len(),
    ensures
        is_select_table(r.0@, unpack(bit_vector@, n as nat), 0),
        is_select_table(r.1@, unpack(bit_vector@, n as nat), 1),
{
    let ghost s = unpack(bit_vector@, n as nat);
    let mut select0_table: Vec<usize> = Vec::new();
    let mut select1_table: Vec<usize> = Vec::new();
    let mut i: usize = 0;
    while i < n
        invariant
            i <= n,
            n <= 8 * bit_vector@.len(),
            s == unpack(bit_vector@, n as nat),
            is_select_table(select0_table@, s.take(i as int), 0),
            is_select_table(select1_table@, s.take(i as int), 1),
        decreases n - i,
    {
        proof {
            lemma_unpack_index(bit_vector@, n as nat, i as int);
            assert(s.take(i as int + 1).drop_last() =~= s.take(i as int));
        }
        let bit = access(bit_vector, i);
        if bit == 0 {
            select0_table.push(i);
        } else {
            select1_table.push(i);
        }
        i += 1;
    }
    assert(s.take(n as int) =~= s);
    (select0_table, select1_table)
}

/// Counts the entries equal to `b` among positions `[0, i)`: the rank table
/// gives the count up to the start of the block that holds position `i - 1`,
/// and a scan within that block gives the rest.
pub fn rank(
    bit_vector: &Vec<u8>,
    n: usize,
    rank_table: &Vec<usize>,
    block_size: usize,
    b: u32,
    i: usize,
) -> (r: usize)
    requires
        n <= 8 * bit_vector@.len(),
        block_size > 0,
        is_rank_table(rank_table@, unpack(bit_vector@, n as nat), b, block_size as nat),
        i <= n,
    ensures
        r == count(unpack(bit_vector@, n as nat).take(i as int), b),
{
    let ghost s = unpack(bit_vector@, n as nat);
    if i == 0 {
        assert(s.take(0) =~= Seq::<u32>::empty());
        return 0;
    }
    let block = (i - 1) / block_size;
    proof {
        lemma_block_of((i - 1) as nat, n as nat, block_size as nat);
    }
    let start = block * block_size;
    let mut result = rank_table[block];
    let mut j = start;
    while j < i
        invariant
            start <= j <= i <= n,
            n <= 8 * bit_vector@.len(),
            s == unpack(bit_vector@, n as nat),
            result == count(s.take(j as int), b),
        decreases i - j,
    {
        proof {
            lemma_unpack_index(bit_vector@, n as nat, j as int);
            lemma_count_take_step(s, b, j as int);
            lemma_count_le_len(s.take(j as int + 1), b);
        }
        if access(bit_vector, j) == b {
            result += 1;
        }
        j += 1;
    }
    result
}

/// Returns the index of the last entry of the leading run of `values` that
/// are below `x`, or `None` when the first entry is not below `x` or there is
/// none.
pub fn find_predecessor_index(values: &Vec<usize>, x: usize) -> (r: Option<usize>)
    ensures
        r is None <==> (values@.len() == 0 || values@[0] >= x),
        r matches Some(k) ==> {
            &&& k < values@.len()
            &&& forall|j: int| 0 <= j <= k ==> #[trigger] values@[j] < x
            &&& (k + 1 == values@.len() || values@[k + 1] >= x)
        },
{
    let mut predecessor: Option<usize> = None;
    let mut i: usize = 0;
    while i < values.len()
        invariant
            i <= values@.len(),
            forall|j: int| 0 <= j < i ==> #[trigger] values@[j] < x,
            predecessor is None <==> i == 0,
            predecessor matches Some(k) ==> k + 1 == i,
        decreases values@.len() - i,
    {
        if values[i] < x {
            predecessor = Some(i);
        } else {
            return predecessor;
        }
        i += 1;
    }
    predecessor
}

/// Finds the position of the `i`-th entry equal to `b` (counting from one):
/// the rank table picks the block that holds it, and a scan within that block
/// finds it. Returns `None` when fewer than `i` entries equal `b`.
pub fn select(
    bit_vector: &Vec<u8>,
    n: usize,
    rank_table: &Vec<usize>,
    block_size: usize,
    b: u32,
    i: usize,
) -> (r: Option<usize>)
    requires
        n <= 8 * bit_vector@.len(),
        block_size > 0,
        is_rank_table(rank_table@, unpack(bit_vector@, n as nat), b, block_size as nat),
    ensures
        r is Some <==> 1 <= i <= count(unpack(bit_vector@, n as nat), b),
        r matches Some(p) ==> p == positions(unpack(bit_vector@, n as nat), b)[i - 1],
{
    let ghost s = unpack(bit_vector@, n as nat);
    let ghost bs = block_size as nat;
    proof {
        lemma_positions(s, b);
        assert(s.take(n as int) =~= s);
    }
    if i == 0 {
        return None;
    }
    let block = match find_predecessor_index(rank_table, i) {
        Some(k) => k,
        None => {
            proof {
                if rank_table@.len() > 0 {
                    assert(s.take(0int * bs) =~= Seq::<u32>::empty());
                }
                lemma_block_exists(0, n as nat, bs);
            }
            return None;
        },
    };
    proof {
        lemma_block_exists(block as nat, n as nat, bs);
        lemma_block_exists((block + 1) as nat, n as nat, bs);
        assert(rank_table@[block as int] == count(s.take(block * bs), b));
    }
    let start = block * block_size;
    let end = if n - start > block_size {
        start + block_size
    } else {
        n
    };
    let mut found = rank_table[block];
    let mut pos = start;
    while pos < end
        invariant
            start <= pos <= end <= n,
            n <= 8 * bit_vector@.len(),
            s == unpack(bit_vector@, n as nat),
            found == count(s.take(pos as int), b),
            found < i,
        decreases end - pos,
    {
        proof {
            lemma_unpack_index(bit_vector@, n as nat, pos as int);
            lemma_count_take_step(s, b, pos as int);
        }
        if access(bit_vector, pos) == b {
            found += 1;
            if found == i {
                proof {
                    lemma_positions(s, b);
                    lemma_position_of_match(s, b, pos as int);
                }
                return Some(pos);
            }
        }
        pos += 1;
    }
    proof {
        if end < n {
            assert(end == (block + 1) * bs) by (nonlinear_arith)
                requires
                    end == start + bs,
                    start == block * bs,
            ;
            assert(rank_table@[block + 1] == count(s.take((block + 1) * bs), b));
        }
    }
    None
}

} // verus!

//! A bit vector together with its rank and select tables.
use vstd::prelude::*;
use crate::bits::{bits_of_chars, chars_of, lemma_unpack_bits, pack_chars, unpack};
use crate::count::{all_bits, count, lemma_positions, positions};
use crate::tables::{
    BLOCK_SIZE, build_rank_tables, build_select_tables, is_rank_table, is_select_table, rank,
};

verus! {

/// A packed bit vector of `len` bits, built once, with a rank table and a
/// select table for each bit value.
pub struct BitIndex {
    bit_vector: Vec<u8>,
    len: usize,
    block_size: usize,
    rank0_table: Vec<usize>,
    rank1_table: Vec<usize>,
    select0_table: Vec<usize>,
    select1_table: Vec<usize>,
}

impl View for BitIndex {
    type V = Seq<u32>;

    /// The bits of the vector, in order.
    closed spec fn view(&self) -> Seq<u32> {
        unpack(self.bit_vector@, self.len as nat)
    }
}

impl BitIndex {
    /// The number of positions in a block.
    pub closed spec fn spec_block_size(&self) -> nat {
        self.block_size as nat
    }

    /// The packed array holds the bits and every table matches them.
    pub closed spec fn wf(&self) -> bool {
        &&& self.len <= 8 * self.bit_vector@.len()
        &&& self.block_size > 0
        &&& is_rank_table(self.rank0_table@, self@, 0, self.block_size as nat)
        &&& is_rank_table(self.rank1_table@, self@, 1, self.block_size as nat)
        &&& is_select_table(self.select0_table@, self@, 0)
        &&& is_select_table(self.select1_table@, self@, 1)
    }

    /// A well-formed index holds bits only.
    pub proof fn lemma_wf_bits(&self)
        requires
            self.wf(),
        ensures
            all_bits(self@),
            self.spec_block_size() > 0,
    {
        lemma_unpack_bits(self.bit_vector@, self.len as nat);
    }

    /// Builds the index of a bit string with blocks of the default size.
    pub fn new(bit_string: &str) -> (r: Self)
        ensures
            r.wf(),
            r@ == bits_of_chars(bit_string@),
            r.spec_block_size() == BLOCK_SIZE,
    {
        Self::with_block_size(bit_string, BLOCK_SIZE)
    }

    /// Builds the index of a bit string with blocks of `block_size` positions.
    pub fn with_block_size(bit_string: &str, block_size: usize) -> (r: Self)
        requires
            block_size > 0,
        ensures
            r.wf(),
            r@ == bits_of_chars(bit_string@),
            r.spec_block_size() == block_size,
    {
        let chars = chars_of(bit_string);
        Self::from_chars(&chars, block_size)
    }

    /// Builds the index of a run of characters, one bit per character, with
    /// blocks of `block_size` positions.
    pub fn from_chars(chars: &Vec<char>, block_size: usize) -> (r: Self)
        requires
            block_size > 0,
        ensures
            r.wf(),
            r@ == bits_of_chars(chars@),
            r.spec_block_size() == block_size,
    {
        let bit_vector = pack_chars(chars);
        let len = chars.len();
        let (rank0_table, rank1_table) = build_rank_tables(&bit_vector, len, block_size);
        let (select0_table, select1_table) = build_select_tables(&bit_vector, len);
        BitIndex {
            bit_vector,
            len,
            block_size,
            rank0_table,
            rank1_table,
            select0_table,
            select1_table,
        }
    }

    /// The number of bits.
    pub fn len(&self) -> (r: usize)
        ensures
            r == self@.len(),
    {
        self.len
    }

    /// The number of positions in a block.
    pub fn block_size(&self) -> (r: usize)
        ensures
            r == self.spec_block_size(),
    {
        self.block_size
    }

    /// The packed array: `ceil(len / 8)` bytes, most significant bit first.
    pub fn bit_vector(&self) -> (r: &Vec<u8>)
        requires
            self.wf(),
        ensures
            unpack(r@, self@.len()) == self@,
            self@.len() <= 8 * r@.len(),
    {
        &self.bit_vector
    }

    /// The rank table of bit value `b`.
    pub fn rank_table(&self, b: u32) -> (r: &Vec<usize>)
        requires
            self.wf(),
            b <= 1,
        ensures
            is_rank_table(r@, self@, b, self.spec_block_size()),
    {
        if b == 0 {
            &self.rank0_table
        } else {
            &self.rank1_table
        }
    }

    /// The select table of bit value `b`.
    pub fn select_table(&self, b: u32) -> (r: &Vec<usize>)
        requires
            self.wf(),
            b <= 1,
        ensures
            is_select_table(r@, self@, b),
    {
        if b == 0 {
            &self.select0_table
        } else {
            &self.select1_table
        }
    }

    /// Returns the bit at position `i`.
    pub fn access(&self, i: usize) -> (r: u32)
        requires
            self.wf(),
            i < self@.len(),
        ensures
            r == self@[i as int],
            r <= 1,
    {
        crate::bits::access(&self.bit_vector, i)
    }

    /// Counts the positions before `i` that hold `b`.
    pub fn rank(&self, b: u32, i: usize) -> (r: usize)
        requires
            self.wf(),
            b <= 1,
            i <= self@.len(),
        ensures
            r == count(self@.take(i as int), b),
    {
        rank(&self.bit_vector, self.len, self.rank_table(b), self.block_size, b, i)
    }

    /// The number of positions that hold `b`.
    pub fn total_count(&self, b: u32) -> (r: usize)
        requires
            self.wf(),
            b <= 1,
        ensures
            r == count(self@, b),
    {
        proof {
            lemma_positions(self@, b);
        }
        self.select_table(b).len()
    }

    /// Returns the position of the `i`-th position that holds `b`, counting
    /// from one, or `None` when fewer than `i` positions hold `b`.
    pub fn select(&self, b: u32, i: usize) -> (r: Option<usize>)
        requires
            self.wf(),
            b <= 1,
        ensures
            r is Some <==> 1 <= i <= count(self@, b),
            r matches Some(p) ==> p == positions(self@, b)[i - 1],
    {
        proof {
            lemma_positions(self@, b);
        }
        let table = self.select_table(b);
        if 1 <= i && i <= table.len() {
            Some(table[i - 1])
        } else {
            None
        }
    }
}

} // verus!

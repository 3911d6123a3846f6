//! A bit-vector index answering `access`, `rank` and `select` queries over a
//! packed array of bits, with block-level rank tables and full select tables.
use vstd::prelude::*;

pub mod bits;
pub mod blocks;
pub mod count;
pub mod index;
pub mod laws;
pub mod query;
pub mod tables;
pub mod text;

pub use bits::{access, string_to_bit_vector};
pub use index::BitIndex;
pub use query::{
    parse_and_run_query, parse_query, run_input, InputError, Query, QueryError,
};
pub use tables::{
    build_rank_tables, build_select_tables, find_predecessor_index, rank, select, BLOCK_SIZE,
};

verus! {

} // verus!

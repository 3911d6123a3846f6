use ads_bitvector::{select, string_to_bit_vector, BLOCK_SIZE};

#[test]
fn test_select_single_block() {
    let bit_vector = vec![0b10101010];
    let rank_table = vec![0];
    assert_eq!(select(&bit_vector, 8, &rank_table, BLOCK_SIZE, 1, 1), Some(0));
    assert_eq!(select(&bit_vector, 8, &rank_table, BLOCK_SIZE, 1, 2), Some(2));
    assert_eq!(select(&bit_vector, 8, &rank_table, BLOCK_SIZE, 1, 3), Some(4));
    assert_eq!(select(&bit_vector, 8, &rank_table, BLOCK_SIZE, 1, 4), Some(6));
    assert_eq!(select(&bit_vector, 8, &rank_table, BLOCK_SIZE, 0, 1), Some(1));
    assert_eq!(select(&bit_vector, 8, &rank_table, BLOCK_SIZE, 0, 2), Some(3));
}

#[test]
fn test_select_multiple_blocks() {
    let bit_vector = string_to_bit_vector("1010101011001100");
    // blocks of 8 bits: 4 ones before the second block
    let rank_table = vec![0, 4];
    assert_eq!(select(&bit_vector, 16, &rank_table, 8, 1, 5), Some(8));
    assert_eq!(select(&bit_vector, 16, &rank_table, 8, 1, 6), Some(9));
    assert_eq!(select(&bit_vector, 16, &rank_table, 8, 1, 7), Some(12));
    assert_eq!(select(&bit_vector, 16, &rank_table, 8, 1, 8), Some(13));
}

#[test]
fn test_select_exceeds_occurrences() {
    let bit_vector = string_to_bit_vector("10101010");
    let rank_table = vec![0];
    assert_eq!(select(&bit_vector, 8, &rank_table, BLOCK_SIZE, 1, 5), None);
}

#[test]
fn test_select_edge_cases() {
    let bit_vector = string_to_bit_vector("1111111100000000");
    // blocks of 8 bits: 8 ones in the first block
    let rank_table = vec![0, 8];
    assert_eq!(select(&bit_vector, 16, &rank_table, 8, 1, 1), Some(0));
    assert_eq!(select(&bit_vector, 16, &rank_table, 8, 1, 8), Some(7));
    assert_eq!(select(&bit_vector, 16, &rank_table, 8, 1, 9), None);
}

use ads_bitvector::{
    access, build_rank_tables, build_select_tables, find_predecessor_index, rank, select,
    string_to_bit_vector, BitIndex, BLOCK_SIZE,
};

fn pattern(n: usize) -> String {
    let mut s = String::new();
    for i in 0..n {
        s.push(if (i * 7 + i / 3) % 5 < 2 { '1' } else { '0' });
    }
    s
}

#[test]
fn packs_most_significant_bit_first() {
    assert_eq!(string_to_bit_vector("10100000"), vec![0b10100000]);
    assert_eq!(string_to_bit_vector("0000000111"), vec![0b00000001, 0b11000000]);
    assert_eq!(string_to_bit_vector("101"), vec![0b10100000]);
    assert_eq!(string_to_bit_vector(""), Vec::<u8>::new());
}

#[test]
fn packs_other_characters_as_zero() {
    assert_eq!(string_to_bit_vector("1x1?"), vec![0b10100000]);
}

#[test]
fn access_reads_packed_bits() {
    let bv = vec![0b10000001, 0b01000000];
    assert_eq!(access(&bv, 0), 1);
    assert_eq!(access(&bv, 1), 0);
    assert_eq!(access(&bv, 7), 1);
    assert_eq!(access(&bv, 8), 0);
    assert_eq!(access(&bv, 9), 1);
}

#[test]
fn scenario_alternating_bits() {
    let index = BitIndex::new("10101010");
    assert!(index.block_size() > 8);
    assert_eq!(index.access(0), 1);
    assert_eq!(index.access(1), 0);
    assert_eq!(index.rank(1, 4), 2);
    assert_eq!(index.rank(0, 4), 2);
    assert_eq!(index.select(1, 1), Some(0));
    assert_eq!(index.select(1, 4), Some(6));
    assert_eq!(index.select(0, 1), Some(1));
}

#[test]
fn scenario_ones_then_zeros() {
    let index = BitIndex::new("1111111100000000");
    assert_eq!(index.rank(1, 8), 8);
    assert_eq!(index.rank(1, 16), 8);
    assert_eq!(index.select(1, 8), Some(7));
    assert_eq!(index.select(1, 9), None);
}

#[test]
fn scenario_one_block_boundary() {
    let bits = pattern(600);
    let index = BitIndex::new(&bits);
    assert_eq!(index.block_size(), 512);
    for b in 0..2u32 {
        let table = index.rank_table(b);
        assert_eq!(table.len(), 2);
        assert_eq!(table[0], 0);
        let expected = bits[..512]
            .chars()
            .filter(|&c| (c == '1') == (b == 1))
            .count();
        assert_eq!(table[1], expected);
    }
}

#[test]
fn rank_tables_at_block_starts() {
    let bv = string_to_bit_vector("1101000111");
    let (r0, r1) = build_rank_tables(&bv, 10, 4);
    assert_eq!(r0, vec![0, 1, 4]);
    assert_eq!(r1, vec![0, 3, 4]);
    let (r0, r1) = build_rank_tables(&bv, 8, 4);
    assert_eq!(r0, vec![0, 1]);
    assert_eq!(r1, vec![0, 3]);
    let (r0, r1) = build_rank_tables(&Vec::new(), 0, 4);
    assert!(r0.is_empty() && r1.is_empty());
}

#[test]
fn select_tables_list_positions() {
    let bv = string_to_bit_vector("1101000111");
    let (s0, s1) = build_select_tables(&bv, 10);
    assert_eq!(s0, vec![2, 4, 5, 6]);
    assert_eq!(s1, vec![0, 1, 3, 7, 8, 9]);
}

#[test]
fn rank_with_blocks_of_four() {
    let bv = string_to_bit_vector("1101000111");
    let (r0, r1) = build_rank_tables(&bv, 10, 4);
    let expected_ones = [0, 1, 2, 2, 3, 3, 3, 3, 4, 5, 6];
    for i in 0..=10 {
        assert_eq!(rank(&bv, 10, &r1, 4, 1, i), expected_ones[i]);
        assert_eq!(rank(&bv, 10, &r0, 4, 0, i), i - expected_ones[i]);
    }
}

#[test]
fn rank_at_end_of_full_block() {
    let bits = pattern(512);
    let index = BitIndex::new(&bits);
    let ones = bits.chars().filter(|&c| c == '1').count();
    assert_eq!(index.rank(1, 512), ones);
    assert_eq!(index.rank(0, 512), 512 - ones);
    assert_eq!(index.total_count(1), ones);
}

#[test]
fn rank_at_zero_is_zero() {
    let index = BitIndex::new("1111");
    assert_eq!(index.rank(1, 0), 0);
    assert_eq!(index.rank(0, 0), 0);
}

#[test]
fn empty_bit_string() {
    let index = BitIndex::new("");
    assert_eq!(index.len(), 0);
    assert_eq!(index.rank(0, 0), 0);
    assert_eq!(index.rank(1, 0), 0);
    assert_eq!(index.select(1, 1), None);
    assert_eq!(index.select(0, 1), None);
    assert!(index.rank_table(0).is_empty());
}

#[test]
fn select_zero_is_not_found() {
    let index = BitIndex::new("1010");
    assert_eq!(index.select(1, 0), None);
    let bv = string_to_bit_vector("1010");
    assert_eq!(select(&bv, 4, &vec![0], 4, 1, 0), None);
}

#[test]
fn select_past_total_count_is_not_found() {
    let index = BitIndex::with_block_size("0110", 2);
    assert_eq!(index.total_count(1), 2);
    assert_eq!(index.select(1, 3), None);
    assert_eq!(index.select(0, 3), None);
    assert_eq!(index.select(0, 2), Some(3));
}

#[test]
fn block_scan_select_agrees_with_table_select() {
    let bits = pattern(1300);
    let index = BitIndex::with_block_size(&bits, 100);
    let bv = index.bit_vector();
    for b in 0..2u32 {
        let total = index.total_count(b);
        for i in 0..=total + 2 {
            let expected = index.select(b, i);
            assert_eq!(select(bv, 1300, index.rank_table(b), 100, b, i), expected);
            if i >= 1 && i <= total {
                assert_eq!(expected, Some(index.select_table(b)[i - 1]));
            }
        }
    }
}

#[test]
fn zeros_and_ones_add_up() {
    let bits = pattern(700);
    let index = BitIndex::with_block_size(&bits, 64);
    for i in 0..=700 {
        assert_eq!(index.rank(0, i) + index.rank(1, i), i);
    }
}

#[test]
fn each_bit_counts_once_for_its_value() {
    let bits = pattern(300);
    let index = BitIndex::with_block_size(&bits, 32);
    for i in 0..300 {
        let b = index.access(i);
        assert_eq!(index.rank(b, i + 1) - index.rank(b, i), 1);
    }
}

#[test]
fn select_and_rank_round_trip() {
    let bits = pattern(900);
    let index = BitIndex::new(&bits);
    for b in 0..2u32 {
        for i in 1..=index.total_count(b) {
            let p = index.select(b, i).unwrap();
            assert_eq!(index.access(p), b);
            assert_eq!(index.rank(b, p + 1), i);
        }
    }
}

#[test]
fn repeated_queries_agree() {
    let index = BitIndex::new("1100101");
    for _ in 0..3 {
        assert_eq!(index.access(4), 1);
        assert_eq!(index.rank(1, 5), 3);
        assert_eq!(index.select(0, 2), Some(3));
        assert_eq!(index.select(0, 4), None);
    }
}

#[test]
fn predecessor_index() {
    let values = vec![0, 4, 4, 9];
    assert_eq!(find_predecessor_index(&values, 0), None);
    assert_eq!(find_predecessor_index(&values, 1), Some(0));
    assert_eq!(find_predecessor_index(&values, 4), Some(0));
    assert_eq!(find_predecessor_index(&values, 5), Some(2));
    assert_eq!(find_predecessor_index(&values, 10), Some(3));
    assert_eq!(find_predecessor_index(&Vec::new(), 3), None);
}

#[test]
fn block_size_one() {
    let index = BitIndex::with_block_size("0110", 1);
    assert_eq!(index.rank_table(1), &vec![0, 0, 1, 2]);
    assert_eq!(index.rank(1, 4), 2);
    assert_eq!(index.select(1, 2), Some(2));
}

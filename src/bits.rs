//! The packed bit array: eight bits per byte, most significant bit first.
use vstd::prelude::*;
use crate::count::all_bits;

verus! {

/// The bit that a character of a bit string stands for: `'1'` is one, every
/// other character is zero.
pub open spec fn bit_of_char(c: char) -> u32 {
    if c == '1' {
        1
    } else {
        0
    }
}

/// The bits that a string of characters stands for, one per character.
pub open spec fn bits_of_chars(s: Seq<char>) -> Seq<u32> {
    Seq::new(s.len(), |i: int| bit_of_char(s[i]))
}

/// Bit `j` of a byte, counting from the most significant bit (`j == 0`).
pub open spec fn byte_bit(byte: u8, j: u8) -> u8 {
    (byte >> (7 - j) as u8) & 1
}

/// Bit `i` of a packed array: bit `i % 8` of byte `i / 8`.
pub open spec fn packed_bit(bytes: Seq<u8>, i: int) -> u32 {
    byte_bit(bytes[i / 8], (i % 8) as u8) as u32
}

/// The first `n` bits held by a packed array.
pub open spec fn unpack(bytes: Seq<u8>, n: nat) -> Seq<u32> {
    Seq::new(n, |i: int| packed_bit(bytes, i))
}

/// Setting bit `k` of a byte changes that bit alone.
proof fn lemma_set_bit(byte: u8, k: u8, j: u8)
    requires
        k < 8,
        j < 8,
    ensures
        byte_bit(byte | (1u8 << (7 - k) as u8), j) == if j == k {
            1
        } else {
            byte_bit(byte, j)
        },
{
    assert(byte_bit(byte | (1u8 << (7 - k) as u8), j) == if j == k {
        1
    } else {
        byte_bit(byte, j)
    }) by (bit_vector)
        requires
            k < 8,
            j < 8,
    ;
}

/// Position `p` within the byte at index `q` of a packed array.
proof fn lemma_position_in_byte(p: int, q: int)
    requires
        0 <= q,
        8 * q <= p < 8 * q + 8,
    ensures
        p / 8 == q,
        p % 8 == p - 8 * q,
{
    vstd::arithmetic::div_mod::lemma_fundamental_div_mod_converse(p, 8, q, p - 8 * q);
}

/// A position splits into its byte index and its offset within that byte.
proof fn lemma_byte_index(p: int)
    requires
        0 <= p,
    ensures
        p == 8 * (p / 8) + p % 8,
        0 <= p % 8 < 8,
        0 <= p / 8,
{
    vstd::arithmetic::div_mod::lemma_fundamental_div_mod(p, 8);
}

/// Packs a bit string into bytes, eight bits per byte and the most significant
/// bit first; the last byte is padded with zero bits. A character other than
/// `'1'` gives a zero bit.
pub fn string_to_bit_vector(bit_string: &str) -> (r: Vec<u8>)
    ensures
        r@.len() == (bit_string@.len() + 7) / 8,
        unpack(r@, bit_string@.len()) == bits_of_chars(bit_string@),
        forall|i: int| bit_string@.len() <= i < 8 * r@.len() ==> packed_bit(r@, i) == 0,
{
    let chars = chars_of(bit_string);
    pack_chars(&chars)
}

pub(crate) fn pack_chars(chars: &Vec<char>) -> (r: Vec<u8>)
    ensures
        r@.len() == (chars@.len() + 7) / 8,
        unpack(r@, chars@.len()) == bits_of_chars(chars@),
        forall|i: int| chars@.len() <= i < 8 * r@.len() ==> packed_bit(r@, i) == 0,
{
    let mut bytes: Vec<u8> = Vec::new();
    let mut current: u8 = 0;
    let mut k: u8 = 0;
    let mut i: usize = 0;
    assert forall|j: u8| k <= j < 8 implies byte_bit(current, j) == 0 by {
        assert(byte_bit(0u8, j) == 0) by (bit_vector);
    }
    while i < chars.len()
        invariant
            i <= chars@.len(),
            k < 8,
            i == 8 * bytes@.len() + k,
            forall|p: int|
                0 <= p < 8 * bytes@.len() ==> packed_bit(bytes@, p) == bit_of_char(chars@[p]),
            forall|j: u8|
                j < k ==> #[trigger] byte_bit(current, j) == bit_of_char(
                    chars@[8 * bytes@.len() + j],
                ),
            forall|j: u8| k <= j < 8 ==> #[trigger] byte_bit(current, j) == 0,
        decreases chars@.len() - i,
    {
        let ghost before = current;
        if chars[i] == '1' {
            current = current | (1u8 << (7 - k));
            proof {
                assert forall|j: u8| j < 8 implies #[trigger] byte_bit(current, j) == if j == k {
                    1
                } else {
                    byte_bit(before, j)
                } by {
                    lemma_set_bit(before, k, j);
                }
            }
        }
        assert(byte_bit(current, k) == bit_of_char(chars@[i as int]));
        k = k + 1;
        i = i + 1;
        if k == 8 {
            let ghost old_bytes = bytes@;
            bytes.push(current);
            proof {
                assert forall|p: int| 0 <= p < 8 * bytes@.len() implies packed_bit(bytes@, p)
                    == bit_of_char(chars@[p]) by {
                    if p < 8 * old_bytes.len() {
                        lemma_byte_index(p);
                        assert(bytes@[p / 8] == old_bytes[p / 8]);
                        assert(packed_bit(old_bytes, p) == bit_of_char(chars@[p]));
                    } else {
                        lemma_position_in_byte(p, old_bytes.len() as int);
                        assert(byte_bit(current, (p % 8) as u8) == bit_of_char(
                            chars@[8 * old_bytes.len() + (p % 8) as u8],
                        ));
                    }
                }
            }
            current = 0;
            k = 0;
            assert forall|j: u8| k <= j < 8 implies byte_bit(current, j) == 0 by {
                assert(byte_bit(0u8, j) == 0) by (bit_vector);
            }
        }
    }
    if k != 0 {
        let ghost old_bytes = bytes@;
        bytes.push(current);
        proof {
            assert forall|p: int| 0 <= p < 8 * bytes@.len() implies packed_bit(bytes@, p) == (
            if p < chars@.len() {
                bit_of_char(chars@[p])
            } else {
                0
            }) by {
                if p < 8 * old_bytes.len() {
                    lemma_byte_index(p);
                    assert(bytes@[p / 8] == old_bytes[p / 8]);
                    assert(packed_bit(old_bytes, p) == bit_of_char(chars@[p]));
                } else {
                    lemma_position_in_byte(p, old_bytes.len() as int);
                    let j = (p % 8) as u8;
                    if j < k {
                        assert(byte_bit(current, j) == bit_of_char(
                            chars@[8 * old_bytes.len() + j],
                        ));
                    } else {
                        assert(byte_bit(current, j) == 0);
                    }
                }
            }
        }
    }
    assert(unpack(bytes@, chars@.len()) =~= bits_of_chars(chars@));
    bytes
}

/// Every bit of a packed array is zero or one.
pub proof fn lemma_unpack_bits(bytes: Seq<u8>, n: nat)
    requires
        n <= 8 * bytes.len(),
    ensures
        all_bits(unpack(bytes, n)),
{
    assert forall|i: int| 0 <= i < n implies #[trigger] unpack(bytes, n)[i] <= 1 by {
        let byte = bytes[i / 8];
        let j = (i % 8) as u8;
        assert(byte_bit(byte, j) <= 1) by (bit_vector);
    }
}

/// Returns the bit at position `i` of a packed array.
pub fn access(bit_vector: &Vec<u8>, i: usize) -> (r: u32)
    requires
        i / 8 < bit_vector@.len(),
    ensures
        r == packed_bit(bit_vector@, i as int),
        r <= 1,
{
    let byte = bit_vector[i / 8];
    let offset = (i % 8) as u8;
    let bit = (byte >> (7 - offset)) & 1;
    assert(bit == byte_bit(byte, offset) && bit <= 1) by (bit_vector)
        requires
            offset < 8,
            bit == (byte >> (7 - offset) as u8) & 1,
    ;
    bit as u32
}

/// The characters of a string, in order.
pub fn chars_of(s: &str) -> (r: Vec<char>)
    ensures
        r@ == s@,
{
    let mut r: Vec<char> = Vec::new();
    for c in it: s.chars()
        invariant
            it.seq() == s@,
            r@ == it.seq().take(it.index() as int),
    {
        r.push(c);
    }
    r
}

} // verus!

//! Arithmetic of fixed-size blocks of bit positions.
use vstd::prelude::*;

verus! {

/// The number of blocks of `block_size` positions that cover `n` positions,
/// the last one possibly partial.
pub open spec fn num_blocks(n: nat, block_size: nat) -> nat
    recommends
        block_size > 0,
{
    if n % block_size == 0 {
        n / block_size
    } else {
        n / block_size + 1
    }
}

/// Block `k` exists exactly when its first position lies before `n`.
pub proof fn lemma_block_exists(k: nat, n: nat, block_size: nat)
    requires
        block_size > 0,
    ensures
        k < num_blocks(n, block_size) <==> k * block_size < n,
{
    let q = n / block_size;
    let r = n % block_size;
    vstd::arithmetic::div_mod::lemma_fundamental_div_mod(n as int, block_size as int);
    assert(n == q * block_size + r);
    if k < q {
        assert(k * block_size + block_size <= q * block_size) by (nonlinear_arith)
            requires
                k < q,
        ;
    } else if k == q {
    } else {
        assert(k * block_size >= q * block_size + block_size) by (nonlinear_arith)
            requires
                k > q,
        ;
    }
}

/// One more position adds a block exactly when it starts one.
pub proof fn lemma_num_blocks_step(i: nat, block_size: nat)
    requires
        block_size > 0,
    ensures
        num_blocks(i + 1, block_size) == num_blocks(i, block_size) + if i % block_size == 0 {
            1nat
        } else {
            0nat
        },
        i % block_size == 0 ==> num_blocks(i, block_size) * block_size == i,
{
    let q = i / block_size;
    let r = i % block_size;
    vstd::arithmetic::div_mod::lemma_fundamental_div_mod(i as int, block_size as int);
    assert(i == q * block_size + r);
    if r + 1 < block_size {
        vstd::arithmetic::div_mod::lemma_fundamental_div_mod_converse(
            (i + 1) as int,
            block_size as int,
            q as int,
            (r + 1) as int,
        );
    } else {
        assert(i + 1 == (q + 1) * block_size + 0) by (nonlinear_arith)
            requires
                i == q * block_size + r,
                r + 1 == block_size,
        ;
        vstd::arithmetic::div_mod::lemma_fundamental_div_mod_converse(
            (i + 1) as int,
            block_size as int,
            (q + 1) as int,
            0,
        );
    }
}

/// The block that holds position `p` starts at or before `p`, and exists when
/// `p` lies before `n`.
pub proof fn lemma_block_of(p: nat, n: nat, block_size: nat)
    requires
        block_size > 0,
        p < n,
    ensures
        (p / block_size) * block_size <= p,
        p < (p / block_size) * block_size + block_size,
        p / block_size < num_blocks(n, block_size),
{
    vstd::arithmetic::div_mod::lemma_fundamental_div_mod(p as int, block_size as int);
    vstd::arithmetic::div_mod::lemma_mod_pos_bound(p as int, block_size as int);
    vstd::arithmetic::mul::lemma_mul_is_commutative((p / block_size) as int, block_size as int);
    lemma_block_exists(p / block_size, n, block_size);
}

} // verus!

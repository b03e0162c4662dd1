//! The group algebra: inverse and non-negative integer powers.

use vstd::prelude::*;

use vstd::arithmetic::div_mod::{lemma_basic_div, lemma_div_basics, lemma_div_denominator,
    lemma_fundamental_div_mod};
use vstd::arithmetic::power2::{lemma2_to64, lemma_pow2_unfold, pow2};

use crate::model::{is_perm, lemma_is_perm_surjective, lemma_seq_inverse_props,
    lemma_seq_pow_add, lemma_seq_pow_is_perm, seq_identity, seq_inverse, seq_pow};
use crate::perm_type::identity_vec;
use crate::product::product;

verus! {

/// The index array of the inverse of `indices`: entry `indices[d]` is
/// set to `d`, so source and destination switch roles.
pub(crate) fn inverse_indices(indices: &Vec<usize>) -> (r: Vec<usize>)
    requires
        is_perm(indices@),
    ensures
        r@ == seq_inverse(indices@),
        is_perm(r@),
        r@.len() == indices@.len(),
{
    let n = indices.len();
    let mut inv = identity_vec(n);
    let mut d: usize = 0;
    while d < n
        invariant
            d <= n,
            is_perm(indices@),
            indices@.len() == n,
            inv@.len() == n,
            forall|k: int| 0 <= k < d ==> inv@[#[trigger] indices@[k] as int] as int == k,
        decreases n - d,
    {
        let v = indices[d];
        inv[v] = d;
        d = d + 1;
    }
    proof {
        lemma_seq_inverse_props(indices@);
        lemma_is_perm_surjective(indices@);
        let q = seq_inverse(indices@);
        assert forall|v: int| 0 <= v < n implies inv@[v] == q[v] by {
            assert(indices@.contains(v as usize));
            assert(exists|k: int| 0 <= k < indices@.len() && indices@[k] == v as usize);
            let d0 = choose|k: int| 0 <= k < indices@.len() && indices@[k] == v as usize;
            assert(inv@[indices@[d0] as int] as int == d0);
            assert(q[indices@[d0] as int] as int == d0);
        }
        assert(inv@ =~= q);
    }
    inv
}

/// The highest set bit of `n`, or zero when `n` is zero, found by
/// smearing the bits downward and stepping back up.
pub fn u32_leading_bit(n: u32) -> (r: u32)
    ensures
        r == 0 <==> n == 0,
        n > 0 ==> r <= n && (n as nat) < 2 * (r as nat),
        n > 0 ==> exists|j: nat| j < 32 && r as nat == pow2(j),
{
    let x0 = n as u64;
    let x1 = x0 | (x0 >> 1);
    let x2 = x1 | (x1 >> 2);
    let x3 = x2 | (x2 >> 4);
    let x4 = x3 | (x3 >> 8);
    let x5 = x4 | (x4 >> 16);
    proof {
        assert(x5 <= 0xffff_ffffu64) by (bit_vector)
            requires
                x0 <= 0xffff_ffffu64,
                x1 == x0 | (x0 >> 1),
                x2 == x1 | (x1 >> 2),
                x3 == x2 | (x2 >> 4),
                x4 == x3 | (x3 >> 8),
                x5 == x4 | (x4 >> 16),
        ;
    }
    let r64 = (x5 + 1) >> 1;
    let r = r64 as u32;
    proof {
        assert((x0 == 0 ==> r64 == 0) && (x0 != 0 ==> r64 <= x0 && x0 < 2 * r64) && r64
            <= 0x8000_0000u64 && (x0 != 0 ==> (r64 == 0x1u64 || r64 == 0x2u64 || r64 == 0x4u64
            || r64 == 0x8u64 || r64 == 0x10u64 || r64 == 0x20u64 || r64 == 0x40u64
            || r64 == 0x80u64 || r64 == 0x100u64 || r64 == 0x200u64 || r64 == 0x400u64
            || r64 == 0x800u64 || r64 == 0x1000u64 || r64 == 0x2000u64 || r64 == 0x4000u64
            || r64 == 0x8000u64 || r64 == 0x1_0000u64 || r64 == 0x2_0000u64
            || r64 == 0x4_0000u64 || r64 == 0x8_0000u64 || r64 == 0x10_0000u64
            || r64 == 0x20_0000u64 || r64 == 0x40_0000u64 || r64 == 0x80_0000u64
            || r64 == 0x100_0000u64 || r64 == 0x200_0000u64 || r64 == 0x400_0000u64
            || r64 == 0x800_0000u64 || r64 == 0x1000_0000u64 || r64 == 0x2000_0000u64
            || r64 == 0x4000_0000u64 || r64 == 0x8000_0000u64))) by (bit_vector)
            requires
                x0 <= 0xffff_ffffu64,
                x1 == x0 | (x0 >> 1),
                x2 == x1 | (x1 >> 2),
                x3 == x2 | (x2 >> 4),
                x4 == x3 | (x3 >> 8),
                x5 == x4 | (x4 >> 16),
                r64 == ((x5 + 1) as u64) >> 1u64,
        ;
        lemma2_to64();
    }
    r
}

/// The index array of `indices` raised to the `exp`-th power, by
/// squaring down from the exponent's leading bit.
pub(crate) fn pow_indices(indices: &Vec<usize>, exp: u32) -> (r: Vec<usize>)
    requires
        is_perm(indices@),
    ensures
        r@ == seq_pow(indices@, exp as nat),
        is_perm(r@),
        r@.len() == indices@.len(),
{
    let ghost p = indices@;
    let n = indices.len();
    let mut result = identity_vec(n);
    let mut mask = u32_leading_bit(exp);
    let ghost mut k: nat = if exp == 0 {
        0nat
    } else {
        choose|j: nat| j < 32 && (mask as nat) == pow2(j)
    };
    proof {
        if exp > 0 {
            lemma_basic_div(exp as int, 2 * (mask as int));
        }
        assert(seq_pow(p, 0) == seq_identity(p.len()));
    }
    while mask != 0
        invariant
            is_perm(p),
            indices@ == p,
            p.len() == n,
            result@.len() == n,
            is_perm(result@),
            mask > 0 ==> mask as nat == pow2(k),
            mask > 0 ==> result@ == seq_pow(p, (exp as nat) / (2 * (mask as nat))),
            mask == 0 ==> result@ == seq_pow(p, exp as nat),
        decreases mask,
    {
        let ghost e0 = (exp as nat) / (2 * (mask as nat));
        proof {
            lemma_seq_pow_is_perm(p, e0);
            lemma_seq_pow_add(p, e0, e0);
        }
        let mut next = product(&result, &result);
        if (exp / mask) % 2 == 1 {
            next = product(&next, indices);
        }
        proof {
            lemma_seq_pow_is_perm(p, 2 * e0);
            lemma_div_denominator(exp as int, mask as int, 2);
            lemma_fundamental_div_mod((exp as int) / (mask as int), 2);
            assert((exp as nat) / (mask as nat) == 2 * e0 + ((exp as nat) / (mask as nat)) % 2);
            assert(next@ == seq_pow(p, (exp as nat) / (mask as nat)));
            if k == 0 {
                assert(pow2(0) == 1) by {
                    lemma2_to64();
                }
                assert(mask == 1);
                lemma_div_basics(exp as int);
                assert((exp as nat) / (mask as nat) == exp as nat);
            } else {
                lemma_pow2_unfold(k);
                k = (k - 1) as nat;
                assert((mask / 2) as nat == pow2(k));
            }
        }
        result = next;
        mask = mask / 2;
    }
    result
}

} // verus!

//! Composition of permutations, including across the two size
//! disciplines, and conjugation.

use vstd::prelude::*;

use crate::model::{is_perm, lemma_seq_compose_is_perm, seq_compose, seq_inverse};
use crate::perm_trait::Permutation;
use crate::perm_type::{PermD, PermError, PermS};

verus! {

/// The index array of the product of `lhs` and `rhs`: entry `dst` is
/// `lhs[rhs[dst]]`, so applying the product equals applying `lhs` and
/// then `rhs`.
pub(crate) fn product(lhs: &Vec<usize>, rhs: &Vec<usize>) -> (r: Vec<usize>)
    requires
        is_perm(lhs@),
        is_perm(rhs@),
        lhs@.len() == rhs@.len(),
    ensures
        r@ == seq_compose(lhs@, rhs@),
        is_perm(r@),
        r@.len() == lhs@.len(),
{
    let n = rhs.len();
    let mut out: Vec<usize> = Vec::new();
    let mut dst: usize = 0;
    while dst < n
        invariant
            dst <= n,
            is_perm(lhs@),
            is_perm(rhs@),
            lhs@.len() == n,
            rhs@.len() == n,
            out@.len() == dst,
            forall|d: int| 0 <= d < dst ==> out@[d] == lhs@[#[trigger] rhs@[d] as int],
        decreases n - dst,
    {
        let src = rhs[dst];
        out.push(lhs[src]);
        dst = dst + 1;
    }
    proof {
        assert(out@ =~= seq_compose(lhs@, rhs@));
        lemma_seq_compose_is_perm(lhs@, rhs@);
    }
    out
}

impl<const SIZE: usize> PermS<SIZE> {
    /// The product of two fixed-size permutations: applying it equals
    /// applying `self` and then `other`. The sizes agree by type.
    pub fn perm_product(&self, other: &PermS<SIZE>) -> (r: PermS<SIZE>)
        ensures
            r@ == seq_compose(self@, other@),
            is_perm(self@) && is_perm(other@) && is_perm(r@),
            self@.len() == SIZE && other@.len() == SIZE,
    {
        PermS::from_raw(product(self.raw(), other.raw()))
    }

    /// The product with a runtime-size permutation; fails when the sizes
    /// disagree.
    pub fn perm_product_dyn(&self, other: &PermD) -> (r: Result<PermS<SIZE>, PermError>)
        ensures
            r is Ok <==> other@.len() == SIZE,
            is_perm(self@) && is_perm(other@),
            self@.len() == SIZE,
            r matches Ok(q) ==> q@ == seq_compose(self@, other@),
            r matches Err(e) ==> e == PermError::LengthMismatch,
    {
        let lhs = self.raw();
        let rhs = other.raw();
        if rhs.len() != SIZE {
            return Err(PermError::LengthMismatch);
        }
        Ok(PermS::from_raw(product(lhs, rhs)))
    }

    /// The result of relabelling `self`'s positions through `other`:
    /// `other`'s inverse, then `self`, then `other`.
    pub fn conjugate_with(&self, other: &PermS<SIZE>) -> (r: PermS<SIZE>)
        ensures
            r@ == seq_compose(seq_compose(seq_inverse(other@), self@), other@),
    {
        other.inverse().perm_product(self).perm_product(other)
    }

    /// Relabels the positions that `self` moves through the index map
    /// `perm`; a synonym for conjugation with `perm`.
    pub fn permute_indices(&self, perm: &PermS<SIZE>) -> (r: PermS<SIZE>)
        ensures
            r@ == seq_compose(seq_compose(seq_inverse(perm@), self@), perm@),
    {
        self.conjugate_with(perm)
    }
}

impl PermD {
    /// The product of two runtime-size permutations: applying it equals
    /// applying `self` and then `other`. Fails when the sizes disagree.
    pub fn perm_product(&self, other: &PermD) -> (r: Result<PermD, PermError>)
        ensures
            r is Ok <==> self@.len() == other@.len(),
            is_perm(self@) && is_perm(other@),
            r matches Ok(q) ==> q@ == seq_compose(self@, other@),
            r matches Err(e) ==> e == PermError::LengthMismatch,
    {
        let lhs = self.raw();
        let rhs = other.raw();
        if lhs.len() != rhs.len() {
            return Err(PermError::LengthMismatch);
        }
        Ok(PermD::from_raw(product(lhs, rhs)))
    }

    /// The product with a fixed-size permutation; fails when the sizes
    /// disagree.
    pub fn perm_product_static<const SIZE: usize>(
        &self,
        other: &PermS<SIZE>,
    ) -> (r: Result<PermS<SIZE>, PermError>)
        ensures
            r is Ok <==> self@.len() == SIZE,
            is_perm(self@) && is_perm(other@),
            other@.len() == SIZE,
            r matches Ok(q) ==> q@ == seq_compose(self@, other@),
            r matches Err(e) ==> e == PermError::LengthMismatch,
    {
        let lhs = self.raw();
        let rhs = other.raw();
        if lhs.len() != SIZE {
            return Err(PermError::LengthMismatch);
        }
        Ok(PermS::from_raw(product(lhs, rhs)))
    }

    /// The result of relabelling `self`'s positions through `other`:
    /// `other`'s inverse, then `self`, then `other`. Fails when the sizes
    /// disagree.
    pub fn conjugate_with(&self, other: &PermD) -> (r: Result<PermD, PermError>)
        ensures
            r is Ok <==> self@.len() == other@.len(),
            r matches Ok(q) ==> q@ == seq_compose(
                seq_compose(seq_inverse(other@), self@),
                other@,
            ),
            r matches Err(e) ==> e == PermError::LengthMismatch,
    {
        let first = match other.inverse().perm_product(self) {
            Ok(q) => q,
            Err(e) => {
                return Err(e);
            },
        };
        first.perm_product(other)
    }

    /// Relabels the positions that `self` moves through the index map
    /// `perm`; a synonym for conjugation with `perm`.
    pub fn permute_indices(&self, perm: &PermD) -> (r: Result<PermD, PermError>)
        ensures
            r is Ok <==> self@.len() == perm@.len(),
            r matches Ok(q) ==> q@ == seq_compose(
                seq_compose(seq_inverse(perm@), self@),
                perm@,
            ),
            r matches Err(e) ==> e == PermError::LengthMismatch,
    {
        self.conjugate_with(perm)
    }
}

} // verus!

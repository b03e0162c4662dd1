//! The abstract interface that both size disciplines share.

use vstd::prelude::*;

use crate::algebra::{inverse_indices, pow_indices};
use crate::model::{is_perm, seq_inverse, seq_pow};
use crate::perm_type::{PermD, PermS};

verus! {

/// An abstract permutation value: a validated index array together with
/// the operations that do not depend on the size discipline.
pub trait Permutation: View<V = Seq<usize>> + Sized {
    /// The permutation's size.
    fn len(&self) -> (r: usize)
        ensures
            r == self@.len(),
            is_perm(self@),
    ;

    /// Read-only access to the index array.
    fn indices(&self) -> (r: &[usize])
        ensures
            r@ == self@,
            is_perm(self@),
    ;

    /// The inverse permutation: source and destination indices switch
    /// roles, so applying `self` and then the inverse restores any
    /// sequence.
    fn inverse(&self) -> (r: Self)
        ensures
            r@ == seq_inverse(self@),
            is_perm(self@),
            is_perm(r@),
    ;

    /// `self` raised to the `exp`-th power under composition; the zeroth
    /// power is the identity.
    fn pow(&self, exp: u32) -> (r: Self)
        ensures
            r@ == seq_pow(self@, exp as nat),
            is_perm(self@),
            is_perm(r@),
    ;
}

impl<const SIZE: usize> Permutation for PermS<SIZE> {
    fn len(&self) -> (r: usize) {
        let r = self.raw().len();
        r
    }

    fn indices(&self) -> (r: &[usize]) {
        self.raw().as_slice()
    }

    fn inverse(&self) -> (r: Self) {
        PermS::from_raw(inverse_indices(self.raw()))
    }

    fn pow(&self, exp: u32) -> (r: Self) {
        PermS::from_raw(pow_indices(self.raw(), exp))
    }
}

impl Permutation for PermD {
    fn len(&self) -> (r: usize) {
        let r = self.raw().len();
        r
    }

    fn indices(&self) -> (r: &[usize]) {
        self.raw().as_slice()
    }

    fn inverse(&self) -> (r: Self) {
        PermD::from_raw(inverse_indices(self.raw()))
    }

    fn pow(&self, exp: u32) -> (r: Self) {
        PermD::from_raw(pow_indices(self.raw(), exp))
    }
}

} // verus!

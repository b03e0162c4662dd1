//! Validated construction from raw index arrays.
//!
//! `check_indices` is the single gate every such construction passes
//! through: an array that is too short, too long, out of range or
//! repeats an index never becomes a permutation value.

use vstd::prelude::*;

use crate::model::is_perm;
use crate::perm_type::{PermD, PermError, PermS};

verus! {

/// Reports whether `indices` is a bijection on `[0, indices.len())`,
/// using a marker array to spot repeated entries in one pass.
pub fn check_indices(indices: &[usize]) -> (r: bool)
    ensures
        r == is_perm(indices@),
{
    let len = indices.len();
    let mut visited: Vec<bool> = Vec::new();
    let mut i: usize = 0;
    while i < len
        invariant
            i <= len,
            visited@.len() == i,
            forall|k: int| 0 <= k < i ==> !visited@[k],
        decreases len - i,
    {
        visited.push(false);
        i = i + 1;
    }
    let mut i: usize = 0;
    while i < len
        invariant
            i <= len,
            indices@.len() == len,
            visited@.len() == len,
            forall|k: int| 0 <= k < i ==> (#[trigger] indices@[k]) < len,
            forall|k: int, l: int|
                0 <= k < i && 0 <= l < i && k != l ==> indices@[k] != indices@[l],
            forall|v: int|
                0 <= v < len ==> (visited@[v] <==> exists|k: int|
                    0 <= k < i && #[trigger] indices@[k] == v as usize),
        decreases len - i,
    {
        let v = indices[i];
        if v >= len {
            return false;
        }
        if visited[v] {
            proof {
                let k = choose|k: int| 0 <= k < i && indices@[k] == v;
                assert(indices@[k] == indices@[i as int]);
            }
            return false;
        }
        visited[v] = true;
        proof {
            assert forall|w: int|
                0 <= w < len implies (visited@[w] <==> exists|k: int|
                    0 <= k < i + 1 && #[trigger] indices@[k] == w as usize) by {
                if w == v as int {
                    assert(indices@[i as int] == w as usize);
                } else {
                    if exists|k: int| 0 <= k < i + 1 && indices@[k] == w as usize {
                        let k = choose|k: int| 0 <= k < i + 1 && indices@[k] == w as usize;
                        assert(k != i);
                    }
                }
            }
        }
        i = i + 1;
    }
    true
}

impl<const SIZE: usize> PermS<SIZE> {
    /// Builds a fixed-size permutation from an index array; an array of
    /// the wrong length or one that is not a bijection is rejected as an
    /// invalid permutation.
    pub fn from_indices(indices: Vec<usize>) -> (r: Result<Self, PermError>)
        ensures
            r is Ok <==> (indices@.len() == SIZE && is_perm(indices@)),
            r matches Ok(p) ==> p@ == indices@,
            r matches Err(e) ==> e == PermError::InvalidPermutation,
    {
        if indices.len() != SIZE {
            return Err(PermError::InvalidPermutation);
        }
        if !check_indices(indices.as_slice()) {
            return Err(PermError::InvalidPermutation);
        }
        Ok(PermS::from_raw(indices))
    }
}

impl PermD {
    /// Builds a runtime-size permutation from an index array; an array
    /// that is not a bijection on `[0, len)` is rejected as an invalid
    /// permutation.
    pub fn from_indices(indices: Vec<usize>) -> (r: Result<Self, PermError>)
        ensures
            r is Ok <==> is_perm(indices@),
            r matches Ok(p) ==> p@ == indices@,
            r matches Err(e) ==> e == PermError::InvalidPermutation,
    {
        if !check_indices(indices.as_slice()) {
            return Err(PermError::InvalidPermutation);
        }
        Ok(PermD::from_raw(indices))
    }
}

} // verus!

//! Permutation algebra with verified contracts.
//!
//! A permutation is stored as an array of indices on `[0, n)`: `indices[dst]`
//! names the source position whose element ends up at `dst` when the
//! permutation is applied. The crate offers validated constructors, the
//! group algebra (inverse, product, power), sort-derivation, and an in-place
//! applier that follows cycles with a visited bitmap.

pub mod algebra;
pub mod apply;
pub mod from_indices;
pub mod from_sorting;
pub mod laws;
pub mod model;
pub mod perm_trait;
pub mod perm_type;
pub mod product;

pub use algebra::u32_leading_bit;
pub use from_indices::check_indices;
pub use from_sorting::{sort, sort_by, sort_by_cached_key, sort_by_key};
pub use model::is_perm;
pub use perm_trait::Permutation;
pub use perm_type::{DynamicPerm, Perm0, Perm1, Perm2, PermD, PermError, PermS, StaticPerm};

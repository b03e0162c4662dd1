//! The two permutation value types and their constructors.
//!
//! `PermS` fixes its size through a const parameter in the type;
//! `PermD` carries its size at runtime. Both hold a validated index
//! array behind the bijection invariant, so no operation can observe or
//! produce a non-permutation. Explicit, length-checked conversions move
//! values between the two size disciplines.

use vstd::prelude::*;

use crate::model::{fixes_from, is_perm, lemma_seq_cycle_is_perm, lemma_seq_identity_is_perm,
    lemma_seq_resize_is_perm, lemma_seq_reverse_cycle_is_perm, lemma_seq_swap_is_perm,
    seq_cycle, seq_identity, seq_resize, seq_reverse_cycle, seq_swap};

verus! {

/// The ways an operation on permutations can fail. All of them are
/// ordinary, recoverable outcomes reported to the immediate caller.
#[derive(Clone, Copy, Debug, PartialEq, Eq, Structural)]
pub enum PermError {
    /// An operand or target sequence has a different length than the
    /// permutation's size.
    LengthMismatch,
    /// A supplied index array is not a bijection on `[0, n)`.
    InvalidPermutation,
    /// A runtime-size value cannot move to the requested fixed size
    /// because the lengths differ.
    Unrepresentable,
}

/// Permutation whose size is fixed in the type.
#[derive(Debug, Hash, Eq)]
pub struct PermS<const SIZE: usize> {
    indices: Vec<usize>,
}

/// Permutation whose size is chosen at runtime.
#[derive(Debug, Hash, Eq)]
pub struct PermD {
    indices: Vec<usize>,
}

/// Fixed-size permutation, under its descriptive name.
pub type StaticPerm<const SIZE: usize> = PermS<SIZE>;

/// Runtime-size permutation, under its descriptive name.
pub type DynamicPerm = PermD;

/// Fixed-size permutation on no elements.
pub type Perm0 = PermS<0>;

/// Fixed-size permutation on one element.
pub type Perm1 = PermS<1>;

/// Fixed-size permutation on two elements.
pub type Perm2 = PermS<2>;

impl<const SIZE: usize> PermS<SIZE> {
    /// The bijection invariant: the stored index array always is a
    /// permutation of `[0, SIZE)`.
    #[verifier::type_invariant]
    spec fn wf(self) -> bool {
        self.indices@.len() == SIZE && is_perm(self.indices@)
    }
}

impl PermD {
    /// The bijection invariant: the stored index array always is a
    /// permutation of `[0, len)`.
    #[verifier::type_invariant]
    spec fn wf(self) -> bool {
        is_perm(self.indices@)
    }
}

impl<const SIZE: usize> PartialEq for PermS<SIZE> {
    fn eq(&self, other: &Self) -> (r: bool) {
        let r = self.indices == other.indices;
        proof {
            if r {
                assert(self.indices@ =~= other.indices@);
            }
        }
        r
    }
}

impl<const SIZE: usize> vstd::std_specs::cmp::PartialEqSpecImpl for PermS<SIZE> {
    open spec fn obeys_eq_spec() -> bool {
        true
    }

    open spec fn eq_spec(&self, other: &Self) -> bool {
        self@ == other@
    }
}

impl PartialEq for PermD {
    fn eq(&self, other: &Self) -> (r: bool) {
        let r = self.indices == other.indices;
        proof {
            if r {
                assert(self.indices@ =~= other.indices@);
            }
        }
        r
    }
}

impl vstd::std_specs::cmp::PartialEqSpecImpl for PermD {
    open spec fn obeys_eq_spec() -> bool {
        true
    }

    open spec fn eq_spec(&self, other: &Self) -> bool {
        self@ == other@
    }
}

impl<const SIZE: usize> PartialEq<PermD> for PermS<SIZE> {
    fn eq(&self, other: &PermD) -> (r: bool) {
        let r = self.indices == other.indices;
        proof {
            if r {
                assert(self.indices@ =~= other.indices@);
            }
        }
        r
    }
}

impl<const SIZE: usize> vstd::std_specs::cmp::PartialEqSpecImpl<PermD> for PermS<SIZE> {
    open spec fn obeys_eq_spec() -> bool {
        true
    }

    open spec fn eq_spec(&self, other: &PermD) -> bool {
        self@ == other@
    }
}

impl<const SIZE: usize> PartialEq<PermS<SIZE>> for PermD {
    fn eq(&self, other: &PermS<SIZE>) -> (r: bool) {
        let r = self.indices == other.indices;
        proof {
            if r {
                assert(self.indices@ =~= other.indices@);
            }
        }
        r
    }
}

impl<const SIZE: usize> vstd::std_specs::cmp::PartialEqSpecImpl<PermS<SIZE>> for PermD {
    open spec fn obeys_eq_spec() -> bool {
        true
    }

    open spec fn eq_spec(&self, other: &PermS<SIZE>) -> bool {
        self@ == other@
    }
}

impl<const SIZE: usize> View for PermS<SIZE> {
    type V = Seq<usize>;

    closed spec fn view(&self) -> Seq<usize> {
        self.indices@
    }
}

impl View for PermD {
    type V = Seq<usize>;

    closed spec fn view(&self) -> Seq<usize> {
        self.indices@
    }
}

impl<const SIZE: usize> PermS<SIZE> {
    /// Crate-internal: wrap an index array that is already known to be a
    /// permutation of the right size.
    pub(crate) fn from_raw(indices: Vec<usize>) -> (r: Self)
        requires
            indices@.len() == SIZE,
            is_perm(indices@),
        ensures
            r@ == indices@,
    {
        PermS { indices }
    }

    /// Crate-internal: the stored index array, together with the facts
    /// the invariant gives about it.
    pub(crate) fn raw(&self) -> (r: &Vec<usize>)
        ensures
            r@ == self@,
            is_perm(self@),
            self@.len() == SIZE,
    {
        proof {
            use_type_invariant(self);
        }
        &self.indices
    }
}

impl PermD {
    /// Crate-internal: wrap an index array that is already known to be a
    /// permutation.
    pub(crate) fn from_raw(indices: Vec<usize>) -> (r: Self)
        requires
            is_perm(indices@),
        ensures
            r@ == indices@,
    {
        PermD { indices }
    }

    /// Crate-internal: the stored index array, together with the facts
    /// the invariant gives about it.
    pub(crate) fn raw(&self) -> (r: &Vec<usize>)
        ensures
            r@ == self@,
            is_perm(self@),
    {
        proof {
            use_type_invariant(self);
        }
        &self.indices
    }
}

/// The index array of the identity permutation on `n` elements.
pub(crate) fn identity_vec(n: usize) -> (r: Vec<usize>)
    ensures
        r@ == seq_identity(n as nat),
        is_perm(r@),
{
    let mut v: Vec<usize> = Vec::new();
    let mut i: usize = 0;
    while i < n
        invariant
            i <= n,
            v@.len() == i,
            forall|k: int| 0 <= k < i ==> v@[k] == k as usize,
        decreases n - i,
    {
        v.push(i);
        i = i + 1;
    }
    proof {
        assert(v@ =~= seq_identity(n as nat));
        lemma_seq_identity_is_perm(n as nat);
    }
    v
}

impl<const SIZE: usize> PermS<SIZE> {
    /// The identity permutation: applying it moves nothing.
    pub fn identity() -> (r: Self)
        ensures
            r@ == seq_identity(SIZE as nat),
            is_perm(r@),
    {
        PermS { indices: identity_vec(SIZE) }
    }

    /// The transposition of positions `first` and `second`; rejected when
    /// either is out of range or the two coincide.
    pub fn swap(first: usize, second: usize) -> (r: Option<Self>)
        ensures
            r is Some <==> (first < SIZE && second < SIZE && first != second),
            r matches Some(p) ==> p@ == seq_swap(SIZE as nat, first as nat, second as nat)
                && is_perm(p@),
    {
        if first >= SIZE || second >= SIZE || first == second {
            return None;
        }
        let mut indices = identity_vec(SIZE);
        indices[first] = second;
        indices[second] = first;
        proof {
            lemma_seq_swap_is_perm(SIZE as nat, first as nat, second as nat);
            assert(indices@ =~= seq_swap(SIZE as nat, first as nat, second as nat));
        }
        Some(PermS { indices })
    }

    /// The cyclic shift that moves every element one position up, the last
    /// one wrapping around to position zero.
    pub fn cycle() -> (r: Self)
        requires
            SIZE >= 1,
        ensures
            r@ == seq_cycle(SIZE as nat),
            is_perm(r@),
    {
        PermS { indices: cycle_vec(SIZE) }
    }

    /// The cyclic shift that moves every element one position down, the
    /// first one wrapping around to the last position.
    pub fn reverse_cycle() -> (r: Self)
        requires
            SIZE >= 1,
        ensures
            r@ == seq_reverse_cycle(SIZE as nat),
            is_perm(r@),
    {
        PermS { indices: reverse_cycle_vec(SIZE) }
    }

    /// Carry the permutation over to another fixed size: shrinking
    /// succeeds only when every position cut off is a fixed point,
    /// growing extends with fixed points.
    pub fn to_size<const NEW_SIZE: usize>(&self) -> (r: Option<PermS<NEW_SIZE>>)
        ensures
            r is Some <==> fixes_from(self@, NEW_SIZE as nat),
            is_perm(self@),
            r matches Some(p) ==> p@ == seq_resize(self@, NEW_SIZE as nat) && is_perm(p@),
    {
        proof {
            use_type_invariant(self);
        }
        match resize_indices(&self.indices, NEW_SIZE) {
            Some(indices) => Some(PermS::<NEW_SIZE> { indices }),
            None => None,
        }
    }

    /// Move the value into the runtime-size discipline; the size and the
    /// index array are kept as they are.
    pub fn into_dynamic(self) -> (r: PermD)
        ensures
            r@ == self@,
            r@.len() == SIZE,
            is_perm(r@),
    {
        proof {
            use_type_invariant(&self);
        }
        let PermS { indices } = self;
        PermD { indices }
    }
}

impl Perm0 {
    /// The only permutation on no elements.
    pub fn empty() -> (r: Self)
        ensures
            r@ == seq_identity(0),
            is_perm(r@),
    {
        let indices: Vec<usize> = Vec::new();
        proof {
            lemma_seq_identity_is_perm(0);
            assert(indices@ =~= seq_identity(0));
        }
        PermS { indices }
    }
}

impl Perm1 {
    /// The only permutation on one element.
    pub fn unit() -> (r: Self)
        ensures
            r@ == seq_identity(1),
            is_perm(r@),
    {
        PermS { indices: identity_vec(1) }
    }
}

impl Perm2 {
    /// The transposition of the two positions of a two-element
    /// permutation.
    pub fn swap2() -> (r: Self)
        ensures
            r@ == seq_swap(2, 0, 1),
            is_perm(r@),
    {
        let mut indices: Vec<usize> = Vec::new();
        indices.push(1);
        indices.push(0);
        proof {
            lemma_seq_swap_is_perm(2, 0, 1);
            assert(indices@ =~= seq_swap(2, 0, 1));
        }
        PermS { indices }
    }
}

impl PermD {
    /// The only permutation on no elements.
    pub fn empty() -> (r: Self)
        ensures
            r@ == seq_identity(0),
            is_perm(r@),
    {
        let indices: Vec<usize> = Vec::new();
        proof {
            lemma_seq_identity_is_perm(0);
            assert(indices@ =~= seq_identity(0));
        }
        PermD { indices }
    }

    /// The only permutation on one element.
    pub fn unit() -> (r: Self)
        ensures
            r@ == seq_identity(1),
            is_perm(r@),
    {
        PermD { indices: identity_vec(1) }
    }

    /// The identity permutation on `size` elements.
    pub fn identity(size: usize) -> (r: Self)
        ensures
            r@ == seq_identity(size as nat),
            is_perm(r@),
    {
        PermD { indices: identity_vec(size) }
    }

    /// The transposition of positions `first` and `second` in a
    /// permutation on `size` elements; rejected when either position is
    /// out of range or the two coincide.
    pub fn swap(size: usize, first: usize, second: usize) -> (r: Option<Self>)
        ensures
            r is Some <==> (first < size && second < size && first != second),
            r matches Some(p) ==> p@ == seq_swap(size as nat, first as nat, second as nat)
                && is_perm(p@),
    {
        if first >= size || second >= size || first == second {
            return None;
        }
        let mut indices = identity_vec(size);
        indices[first] = second;
        indices[second] = first;
        proof {
            lemma_seq_swap_is_perm(size as nat, first as nat, second as nat);
            assert(indices@ =~= seq_swap(size as nat, first as nat, second as nat));
        }
        Some(PermD { indices })
    }

    /// The cyclic shift on `size` elements that moves every element one
    /// position up, the last one wrapping around to position zero.
    pub fn cycle(size: usize) -> (r: Self)
        requires
            size >= 1,
        ensures
            r@ == seq_cycle(size as nat),
            is_perm(r@),
    {
        PermD { indices: cycle_vec(size) }
    }

    /// The cyclic shift on `size` elements that moves every element one
    /// position down, the first one wrapping around to the last position.
    pub fn reverse_cycle(size: usize) -> (r: Self)
        requires
            size >= 1,
        ensures
            r@ == seq_reverse_cycle(size as nat),
            is_perm(r@),
    {
        PermD { indices: reverse_cycle_vec(size) }
    }

    /// Carry the permutation over to another runtime size: shrinking
    /// succeeds only when every position cut off is a fixed point,
    /// growing extends with fixed points.
    pub fn to_size(&self, new_size: usize) -> (r: Option<PermD>)
        ensures
            r is Some <==> fixes_from(self@, new_size as nat),
            is_perm(self@),
            r matches Some(p) ==> p@ == seq_resize(self@, new_size as nat) && is_perm(p@),
    {
        proof {
            use_type_invariant(self);
        }
        match resize_indices(&self.indices, new_size) {
            Some(indices) => Some(PermD { indices }),
            None => None,
        }
    }

    /// Move the value into the fixed-size discipline; fails as
    /// unrepresentable when the sizes differ.
    pub fn into_static<const SIZE: usize>(self) -> (r: Result<PermS<SIZE>, PermError>)
        ensures
            r is Ok <==> self@.len() == SIZE,
            is_perm(self@),
            r matches Ok(p) ==> p@ == self@,
            r matches Err(e) ==> e == PermError::Unrepresentable,
    {
        proof {
            use_type_invariant(&self);
        }
        if self.indices.len() != SIZE {
            return Err(PermError::Unrepresentable);
        }
        let PermD { indices } = self;
        Ok(PermS { indices })
    }
}

/// The index array of the cyclic shift `seq_cycle(n)`.
fn cycle_vec(n: usize) -> (r: Vec<usize>)
    requires
        n >= 1,
    ensures
        r@ == seq_cycle(n as nat),
        is_perm(r@),
{
    let mut v: Vec<usize> = Vec::new();
    v.push(n - 1);
    let mut dst: usize = 1;
    while dst < n
        invariant
            1 <= dst <= n,
            v@.len() == dst,
            v@[0] == (n - 1) as usize,
            forall|k: int| 1 <= k < dst ==> v@[k] == (k - 1) as usize,
        decreases n - dst,
    {
        v.push(dst - 1);
        dst = dst + 1;
    }
    proof {
        assert(v@ =~= seq_cycle(n as nat));
        lemma_seq_cycle_is_perm(n as nat);
    }
    v
}

/// The index array of the cyclic shift `seq_reverse_cycle(n)`.
fn reverse_cycle_vec(n: usize) -> (r: Vec<usize>)
    requires
        n >= 1,
    ensures
        r@ == seq_reverse_cycle(n as nat),
        is_perm(r@),
{
    let mut v: Vec<usize> = Vec::new();
    let mut dst: usize = 0;
    while dst < n
        invariant
            dst <= n,
            v@.len() == dst,
            forall|k: int|
                0 <= k < dst ==> v@[k] == (if k == n - 1 { 0usize } else { (k + 1) as usize }),
        decreases n - dst,
    {
        if dst + 1 == n {
            v.push(0);
        } else {
            v.push(dst + 1);
        }
        dst = dst + 1;
    }
    proof {
        assert(v@ =~= seq_reverse_cycle(n as nat));
        lemma_seq_reverse_cycle_is_perm(n as nat);
    }
    v
}

/// Shared resize step: trailing positions that shrinking would cut off
/// must be fixed points; growing extends with fixed points.
fn resize_indices(indices: &Vec<usize>, new_size: usize) -> (r: Option<Vec<usize>>)
    requires
        is_perm(indices@),
    ensures
        r is Some <==> fixes_from(indices@, new_size as nat),
        r matches Some(v) ==> v@ == seq_resize(indices@, new_size as nat)
            && is_perm(v@),
{
    let n = indices.len();
    let mut d: usize = new_size;
    while d < n
        invariant
            is_perm(indices@),
            indices@.len() == n,
            new_size <= d,
            forall|k: int| new_size <= k < d && k < n ==> indices@[k] == k as usize,
        decreases n - d,
    {
        if indices[d] != d {
            return None;
        }
        d = d + 1;
    }
    let bound = if n < new_size { n } else { new_size };
    let mut out: Vec<usize> = Vec::new();
    let mut i: usize = 0;
    while i < bound
        invariant
            i <= bound,
            bound <= n,
            bound <= new_size,
            indices@.len() == n,
            out@.len() == i,
            forall|k: int| 0 <= k < i ==> out@[k] == indices@[k],
        decreases bound - i,
    {
        out.push(indices[i]);
        i = i + 1;
    }
    while i < new_size
        invariant
            bound <= i <= new_size,
            bound <= n,
            indices@.len() == n,
            out@.len() == i,
            forall|k: int| 0 <= k < bound ==> out@[k] == indices@[k],
            forall|k: int| bound <= k < i ==> out@[k] == k as usize,
        decreases new_size - i,
    {
        out.push(i);
        i = i + 1;
    }
    proof {
        assert(out@ =~= seq_resize(indices@, new_size as nat));
        lemma_seq_resize_is_perm(indices@, new_size as nat);
    }
    Some(out)
}

} // verus!

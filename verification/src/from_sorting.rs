//! Sort-derivation: build the permutation that reproduces a sort order.
//!
//! Starting from the identity index array, the indices are sorted by the
//! keys they point at, so applying the derived permutation to the data
//! yields exactly the data sorted. The insertion sort used here is
//! stable, and since it starts from the identity, equal keys end up
//! ordered by index.

use vstd::prelude::*;

use core::cmp::Ordering;

use crate::model::{is_perm, lemma_seq_move_is_perm, seq_identity, seq_move};
use crate::perm_type::{identity_vec, PermD, PermError, PermS};

verus! {

/// Index `x` comes before index `y` under `keys`: its key is smaller, or
/// the keys are equal and `x` is the smaller index (the tie order of a
/// stable sort started from the identity).
pub open spec fn key_lt(keys: Seq<i64>, x: usize, y: usize) -> bool {
    keys[x as int] < keys[y as int] || (keys[x as int] == keys[y as int] && x < y)
}

/// `order` lists indices into `keys` with non-decreasing keys, ties
/// resolved by index. Together with `is_perm` this pins the sequence
/// down completely.
pub open spec fn sorted_by_keys(keys: Seq<i64>, order: Seq<usize>) -> bool {
    forall|a: int, b: int|
        0 <= a < b < order.len() ==> key_lt(keys, #[trigger] order[a], #[trigger] order[b])
}

/// Sorts the identity index array over `keys` by insertion: the result
/// lists the positions of `keys` in non-decreasing key order, equal keys
/// ordered by position.
pub(crate) fn sort_index_by_keys(keys: &Vec<i64>) -> (r: Vec<usize>)
    ensures
        is_perm(r@),
        r@.len() == keys@.len(),
        sorted_by_keys(keys@, r@),
{
    let n = keys.len();
    let mut order = identity_vec(n);
    let mut i: usize = 0;
    while i < n
        invariant
            i <= n,
            keys@.len() == n,
            order@.len() == n,
            is_perm(order@),
            forall|d: int| i <= d < n ==> order@[d] == d as usize,
            forall|d: int| 0 <= d < i ==> (#[trigger] order@[d] as int) < i,
            forall|a: int, b: int|
                0 <= a < b < i ==> key_lt(keys@, #[trigger] order@[a], #[trigger] order@[b]),
        decreases n - i,
    {
        let v = order[i];
        let key_v = keys[v];
        let ghost before = order@;
        let mut j: usize = i;
        while j > 0 && keys[order[j - 1]] > key_v
            invariant
                j <= i < n,
                keys@.len() == n,
                order@.len() == n,
                is_perm(order@),
                order@ == before,
                v as int == i as int,
                key_v == keys@[v as int],
                forall|a: int| j <= a < i ==> keys@[#[trigger] order@[a] as int] > key_v,
            decreases j,
        {
            j = j - 1;
        }
        let moved = order.remove(i);
        order.insert(j, moved);
        proof {
            let t = seq_move(before, i as int, j as int);
            assert(order@ == t);
            lemma_seq_move_is_perm(before, i as int, j as int);
            if j > 0 {
                assert forall|a: int|
                    0 <= a < j implies keys@[#[trigger] before[a] as int] <= key_v by {
                    if a < j - 1 {
                        assert(key_lt(keys@, before[a], before[j - 1]));
                    }
                }
            }
            assert forall|a: int, b: int|
                0 <= a < b <= i implies key_lt(keys@, #[trigger] t[a], #[trigger] t[b]) by {
                if b < j {
                    assert(key_lt(keys@, before[a], before[b]));
                } else if b == j {
                    assert(t[b] == before[i as int]);
                    assert(keys@[before[a] as int] <= key_v);
                    assert((before[a] as int) < i);
                } else if a < j {
                    assert(t[b] == before[b - 1]);
                    assert(key_lt(keys@, before[a], before[b - 1]));
                } else if a == j {
                    assert(t[a] == before[i as int]);
                    assert(keys@[before[b - 1] as int] > key_v);
                } else {
                    assert(key_lt(keys@, before[a - 1], before[b - 1]));
                }
            }
            assert forall|d: int| 0 <= d < i + 1 implies (#[trigger] t[d] as int) < i + 1 by {
                if d < j {
                    assert(t[d] == before[d]);
                } else if d == j {
                    assert(t[d] == before[i as int]);
                } else {
                    assert(t[d] == before[d - 1]);
                }
            }
        }
        i = i + 1;
    }
    order
}

/// The comparator admits `a` before `b`: some call on `(a, b)` may
/// report not-greater, or a call on `(b, a)` reported greater.
pub open spec fn cmp_admits_le<F: Fn(i64, i64) -> Ordering>(f: F, a: i64, b: i64) -> bool {
    (exists|o: Ordering| call_ensures(f, (a, b), o) && o != Ordering::Greater)
        || call_ensures(f, (b, a), Ordering::Greater)
}

/// Every adjacent pair of `order` is in an order the comparator
/// admitted. For a comparator that is a total preorder this is
/// sortedness; an inconsistent comparator admits more orders.
pub open spec fn sorted_by_cmp<F: Fn(i64, i64) -> Ordering>(
    f: F,
    keys: Seq<i64>,
    order: Seq<usize>,
) -> bool {
    forall|d: int|
        0 <= d < order.len() - 1 ==> cmp_admits_le(
            f,
            keys[#[trigger] order[d] as int],
            keys[order[d + 1] as int],
        )
}

/// Sorts the identity index array over `data` by insertion, deciding
/// each step with the caller's comparator.
pub(crate) fn sort_index_by_cmp<F: Fn(i64, i64) -> Ordering>(data: &Vec<i64>, f: F) -> (r: Vec<
    usize,
>)
    requires
        forall|a: int, b: int|
            0 <= a < data@.len() && 0 <= b < data@.len() ==> call_requires(
                f,
                (#[trigger] data@[a], #[trigger] data@[b]),
            ),
    ensures
        is_perm(r@),
        r@.len() == data@.len(),
        sorted_by_cmp(f, data@, r@),
{
    let n = data.len();
    let mut order = identity_vec(n);
    let mut i: usize = 0;
    while i < n
        invariant
            i <= n,
            data@.len() == n,
            order@.len() == n,
            is_perm(order@),
            forall|a: int, b: int|
                0 <= a < n && 0 <= b < n ==> call_requires(f, (#[trigger] data@[a], #[trigger] data@[b])),
            forall|d: int| i <= d < n ==> order@[d] == d as usize,
            forall|d: int|
                0 <= d < i - 1 ==> cmp_admits_le(
                    f,
                    data@[#[trigger] order@[d] as int],
                    data@[order@[d + 1] as int],
                ),
        decreases n - i,
    {
        let v = order[i];
        let xv = data[v];
        let ghost before = order@;
        let mut j: usize = i;
        loop
            invariant_except_break
                j <= i < n,
                data@.len() == n,
                order@.len() == n,
                is_perm(order@),
                order@ == before,
                v as int == i as int,
                xv == data@[v as int],
                forall|a: int, b: int|
                    0 <= a < n && 0 <= b < n ==> call_requires(
                        f,
                        (#[trigger] data@[a], #[trigger] data@[b]),
                    ),
                forall|a: int|
                    j <= a < i ==> call_ensures(
                        f,
                        (data@[#[trigger] before[a] as int], xv),
                        Ordering::Greater,
                    ),
            ensures
                j <= i < n,
                order@ == before,
                forall|a: int|
                    j <= a < i ==> call_ensures(
                        f,
                        (data@[#[trigger] before[a] as int], xv),
                        Ordering::Greater,
                    ),
                j > 0 ==> exists|o: Ordering|
                    #[trigger] call_ensures(f, (data@[before[j - 1] as int], xv), o) && o
                        != Ordering::Greater,
            decreases j,
        {
            if j == 0 {
                break;
            }
            let prev = order[j - 1];
            let o = f(data[prev], xv);
            match o {
                Ordering::Greater => {
                    j = j - 1;
                },
                _ => {
                    break;
                },
            }
        }
        let moved = order.remove(i);
        order.insert(j, moved);
        proof {
            let t = seq_move(before, i as int, j as int);
            assert(order@ == t);
            lemma_seq_move_is_perm(before, i as int, j as int);
            assert forall|d: int|
                0 <= d < i implies cmp_admits_le(
                    f,
                    data@[#[trigger] t[d] as int],
                    data@[t[d + 1] as int],
                ) by {
                if d + 1 < j {
                    assert(t[d] == before[d] && t[d + 1] == before[d + 1]);
                    assert(cmp_admits_le(f, data@[before[d] as int], data@[before[d + 1] as int]));
                } else if d + 1 == j {
                    assert(t[d] == before[d] && t[d + 1] == before[i as int]);
                } else if d == j {
                    assert(t[d] == before[i as int] && t[d + 1] == before[d]);
                    assert(call_ensures(f, (data@[before[d] as int], xv), Ordering::Greater));
                } else {
                    assert(t[d] == before[d - 1] && t[d + 1] == before[d]);
                    assert(cmp_admits_le(f, data@[before[d - 1] as int], data@[before[d] as int]));
                }
            }
        }
        i = i + 1;
    }
    order
}

impl<const SIZE: usize> PermS<SIZE> {
    /// Derives the permutation that sorts `data` non-decreasingly: applying
    /// the result to `data` yields `data` sorted, equal elements kept in
    /// their original relative order. Fails when the data's length is not
    /// the fixed size.
    pub fn from_sort(data: &Vec<i64>) -> (r: Result<Self, PermError>)
        ensures
            r is Ok <==> data@.len() == SIZE,
            r matches Ok(p) ==> is_perm(p@) && p@.len() == data@.len()
                && sorted_by_keys(data@, p@),
            r matches Err(e) ==> e == PermError::LengthMismatch,
    {
        if data.len() != SIZE {
            return Err(PermError::LengthMismatch);
        }
        Ok(PermS::from_raw(sort_index_by_keys(data)))
    }
}

impl PermD {
    /// Derives the permutation that sorts `data` non-decreasingly: applying
    /// the result to `data` yields `data` sorted, equal elements kept in
    /// their original relative order.
    pub fn from_sort(data: &Vec<i64>) -> (r: Self)
        ensures
            r@.len() == data@.len(),
            is_perm(r@),
            sorted_by_keys(data@, r@),
    {
        PermD::from_raw(sort_index_by_keys(data))
    }
}

/// Computes each element's key once and hands the key array to the
/// keyed insertion sort.
fn keys_of<F: Fn(i64) -> i64>(data: &Vec<i64>, f: &F) -> (r: Vec<i64>)
    requires
        forall|a: int| 0 <= a < data@.len() ==> call_requires(*f, (#[trigger] data@[a],)),
    ensures
        r@.len() == data@.len(),
        forall|d: int|
            0 <= d < data@.len() ==> call_ensures(*f, (data@[d],), #[trigger] r@[d]),
{
    let n = data.len();
    let mut keys: Vec<i64> = Vec::new();
    let mut d: usize = 0;
    while d < n
        invariant
            d <= n,
            data@.len() == n,
            keys@.len() == d,
            forall|a: int| 0 <= a < n ==> call_requires(*f, (#[trigger] data@[a],)),
            forall|a: int| 0 <= a < d ==> call_ensures(*f, (data@[a],), #[trigger] keys@[a]),
        decreases n - d,
    {
        keys.push(f(data[d]));
        d = d + 1;
    }
    keys
}

/// What the key-function variants promise: some key array that the key
/// function admits for the data, under which the result is sorted.
pub open spec fn sorted_by_some_keys<F: Fn(i64) -> i64>(
    f: F,
    data: Seq<i64>,
    order: Seq<usize>,
) -> bool {
    exists|ks: Seq<i64>|
        #![trigger sorted_by_keys(ks, order)]
        ks.len() == data.len() && (forall|d: int|
            0 <= d < data.len() ==> call_ensures(f, (data[d],), #[trigger] ks[d]))
            && sorted_by_keys(ks, order)
}

impl<const SIZE: usize> PermS<SIZE> {
    /// Derives the permutation that sorts `data` by the caller's
    /// comparator; every adjacent pair of the result is in an order the
    /// comparator admitted. Fails when the data's length is not the fixed
    /// size.
    pub fn from_sort_by<F: Fn(i64, i64) -> Ordering>(data: &Vec<i64>, compare: F) -> (r: Result<
        Self,
        PermError,
    >)
        requires
            forall|a: int, b: int|
                0 <= a < data@.len() && 0 <= b < data@.len() ==> call_requires(
                    compare,
                    (#[trigger] data@[a], #[trigger] data@[b]),
                ),
        ensures
            r is Ok <==> data@.len() == SIZE,
            r matches Ok(p) ==> is_perm(p@) && p@.len() == data@.len()
                && sorted_by_cmp(compare, data@, p@),
            r matches Err(e) ==> e == PermError::LengthMismatch,
    {
        if data.len() != SIZE {
            return Err(PermError::LengthMismatch);
        }
        Ok(PermS::from_raw(sort_index_by_cmp(data, compare)))
    }

    /// Derives the permutation that sorts `data` by a key function, ties
    /// between equal keys kept in the data's order. Fails when the data's
    /// length is not the fixed size.
    pub fn from_sort_by_key<F: Fn(i64) -> i64>(data: &Vec<i64>, f: F) -> (r: Result<
        Self,
        PermError,
    >)
        requires
            forall|a: int| 0 <= a < data@.len() ==> call_requires(f, (#[trigger] data@[a],)),
        ensures
            r is Ok <==> data@.len() == SIZE,
            r matches Ok(p) ==> is_perm(p@) && p@.len() == data@.len()
                && sorted_by_some_keys(f, data@, p@),
            r matches Err(e) ==> e == PermError::LengthMismatch,
    {
        if data.len() != SIZE {
            return Err(PermError::LengthMismatch);
        }
        let keys = keys_of(data, &f);
        let order = sort_index_by_keys(&keys);
        proof {
            assert(sorted_by_some_keys(f, data@, order@)) by {
                assert(sorted_by_keys(keys@, order@));
            }
        }
        Ok(PermS::from_raw(order))
    }

    /// Derives the permutation that sorts `data` by a key function,
    /// computing each key exactly once. Fails when the data's length is
    /// not the fixed size.
    pub fn from_sort_by_cached_key<F: Fn(i64) -> i64>(data: &Vec<i64>, f: F) -> (r: Result<
        Self,
        PermError,
    >)
        requires
            forall|a: int| 0 <= a < data@.len() ==> call_requires(f, (#[trigger] data@[a],)),
        ensures
            r is Ok <==> data@.len() == SIZE,
            r matches Ok(p) ==> is_perm(p@) && p@.len() == data@.len()
                && sorted_by_some_keys(f, data@, p@),
            r matches Err(e) ==> e == PermError::LengthMismatch,
    {
        if data.len() != SIZE {
            return Err(PermError::LengthMismatch);
        }
        let keys = keys_of(data, &f);
        let order = sort_index_by_keys(&keys);
        proof {
            assert(sorted_by_some_keys(f, data@, order@)) by {
                assert(sorted_by_keys(keys@, order@));
            }
        }
        Ok(PermS::from_raw(order))
    }
}

impl PermD {
    /// Derives the permutation that sorts `data` by the caller's
    /// comparator; every adjacent pair of the result is in an order the
    /// comparator admitted.
    pub fn from_sort_by<F: Fn(i64, i64) -> Ordering>(data: &Vec<i64>, compare: F) -> (r: Self)
        requires
            forall|a: int, b: int|
                0 <= a < data@.len() && 0 <= b < data@.len() ==> call_requires(
                    compare,
                    (#[trigger] data@[a], #[trigger] data@[b]),
                ),
        ensures
            r@.len() == data@.len(),
            is_perm(r@),
            sorted_by_cmp(compare, data@, r@),
    {
        PermD::from_raw(sort_index_by_cmp(data, compare))
    }

    /// Derives the permutation that sorts `data` by a key function, ties
    /// between equal keys kept in the data's order.
    pub fn from_sort_by_key<F: Fn(i64) -> i64>(data: &Vec<i64>, f: F) -> (r: Self)
        requires
            forall|a: int| 0 <= a < data@.len() ==> call_requires(f, (#[trigger] data@[a],)),
        ensures
            r@.len() == data@.len(),
            is_perm(r@),
            sorted_by_some_keys(f, data@, r@),
    {
        let keys = keys_of(data, &f);
        let order = sort_index_by_keys(&keys);
        proof {
            assert(sorted_by_some_keys(f, data@, order@)) by {
                assert(sorted_by_keys(keys@, order@));
            }
        }
        PermD::from_raw(order)
    }

    /// Derives the permutation that sorts `data` by a key function,
    /// computing each key exactly once.
    pub fn from_sort_by_cached_key<F: Fn(i64) -> i64>(data: &Vec<i64>, f: F) -> (r: Self)
        requires
            forall|a: int| 0 <= a < data@.len() ==> call_requires(f, (#[trigger] data@[a],)),
        ensures
            r@.len() == data@.len(),
            is_perm(r@),
            sorted_by_some_keys(f, data@, r@),
    {
        let keys = keys_of(data, &f);
        let order = sort_index_by_keys(&keys);
        proof {
            assert(sorted_by_some_keys(f, data@, order@)) by {
                assert(sorted_by_keys(keys@, order@));
            }
        }
        PermD::from_raw(order)
    }
}

/// Sorts the identity index array in place by the caller's comparator;
/// every adjacent pair of the result is in an order the comparator
/// admitted.
pub fn sort_by<F: Fn(i64, i64) -> Ordering>(identity: &mut Vec<usize>, vec: &Vec<i64>, compare: F)
    requires
        old(identity)@ == seq_identity(vec@.len()),
        forall|a: int, b: int|
            0 <= a < vec@.len() && 0 <= b < vec@.len() ==> call_requires(
                compare,
                (#[trigger] vec@[a], #[trigger] vec@[b]),
            ),
    ensures
        is_perm(final(identity)@),
        final(identity)@.len() == vec@.len(),
        sorted_by_cmp(compare, vec@, final(identity)@),
{
    *identity = sort_index_by_cmp(vec, compare);
}

/// Sorts the identity index array in place by a key function, ties
/// between equal keys kept in the data's order.
pub fn sort_by_key<F: Fn(i64) -> i64>(identity: &mut Vec<usize>, vec: &Vec<i64>, f: F)
    requires
        old(identity)@ == seq_identity(vec@.len()),
        forall|a: int| 0 <= a < vec@.len() ==> call_requires(f, (#[trigger] vec@[a],)),
    ensures
        is_perm(final(identity)@),
        final(identity)@.len() == vec@.len(),
        sorted_by_some_keys(f, vec@, final(identity)@),
{
    let keys = keys_of(vec, &f);
    let order = sort_index_by_keys(&keys);
    proof {
        assert(sorted_by_some_keys(f, vec@, order@)) by {
            assert(sorted_by_keys(keys@, order@));
        }
    }
    *identity = order;
}

/// Sorts the identity index array in place by a key function, computing
/// each key exactly once.
pub fn sort_by_cached_key<F: Fn(i64) -> i64>(identity: &mut Vec<usize>, vec: &Vec<i64>, f: F)
    requires
        old(identity)@ == seq_identity(vec@.len()),
        forall|a: int| 0 <= a < vec@.len() ==> call_requires(f, (#[trigger] vec@[a],)),
    ensures
        is_perm(final(identity)@),
        final(identity)@.len() == vec@.len(),
        sorted_by_some_keys(f, vec@, final(identity)@),
{
    let keys = keys_of(vec, &f);
    let order = sort_index_by_keys(&keys);
    proof {
        assert(sorted_by_some_keys(f, vec@, order@)) by {
            assert(sorted_by_keys(keys@, order@));
        }
    }
    *identity = order;
}

/// Sorts the identity index array in place so that it lists the positions
/// of `vec` in non-decreasing order, equal elements kept in their
/// original relative order.
pub fn sort(identity: &mut Vec<usize>, vec: &Vec<i64>)
    requires
        old(identity)@ == seq_identity(vec@.len()),
    ensures
        is_perm(final(identity)@),
        final(identity)@.len() == vec@.len(),
        sorted_by_keys(vec@, final(identity)@),
{
    *identity = sort_index_by_keys(vec);
}

} // verus!

//! The algebraic laws the library promises, proved over the model.
//!
//! Each law is stated over the spec functions that the executable API's
//! contracts use, so callers can chain a law directly onto the `ensures`
//! of the functions involved.

use vstd::prelude::*;

use vstd::arithmetic::div_mod::{lemma_mod_multiples_vanish, lemma_small_mod, lemma_sub_mod_noop};

use crate::from_sorting::{key_lt, sorted_by_keys};
use crate::model::{is_perm, lemma_is_perm_surjective, lemma_seq_inverse_props, seq_apply,
    seq_compose, seq_cycle, seq_identity, seq_inverse, seq_pow, seq_reverse_cycle};

verus! {

/// Applying the identity moves nothing.
pub proof fn lemma_identity_apply<T>(s: Seq<T>)
    requires
        s.len() <= usize::MAX,
    ensures
        seq_apply(seq_identity(s.len()), s) == s,
{
    let id = seq_identity(s.len());
    assert forall|d: int| 0 <= d < s.len() implies seq_apply(id, s)[d] == s[d] by {
        assert(id[d] == d as usize);
    }
    assert(seq_apply(id, s) =~= s);
}

/// The identity is its own inverse.
pub proof fn lemma_identity_inverse(n: nat)
    requires
        n <= usize::MAX,
    ensures
        seq_inverse(seq_identity(n)) == seq_identity(n),
{
    crate::model::lemma_seq_identity_is_perm(n);
    lemma_seq_inverse_props(seq_identity(n));
    let q = seq_inverse(seq_identity(n));
    assert forall|d: int| 0 <= d < n implies q[d] == seq_identity(n)[d] by {
        assert(seq_identity(n)[d] == d as usize);
        assert(q[seq_identity(n)[d] as int] as int == d);
    }
    assert(q =~= seq_identity(n));
}

/// The inverse law: composing a permutation's inverse with the
/// permutation and applying the result restores any sequence of matching
/// length.
pub proof fn lemma_inverse_law<T>(p: Seq<usize>, s: Seq<T>)
    requires
        is_perm(p),
        s.len() == p.len(),
        p.len() <= usize::MAX,
    ensures
        seq_apply(seq_compose(seq_inverse(p), p), s) == s,
{
    lemma_seq_inverse_props(p);
    let c = seq_compose(seq_inverse(p), p);
    assert forall|d: int| 0 <= d < s.len() implies seq_apply(c, s)[d] == s[d] by {
        assert(seq_inverse(p)[p[d] as int] as int == d);
        assert(c[d] as int == d);
    }
    assert(seq_apply(c, s) =~= s);
}

/// The product's application order: applying `lhs.perm_product(rhs)` to a
/// sequence gives the same result as applying `lhs` first and then `rhs`.
pub proof fn lemma_product_application_order<T>(lhs: Seq<usize>, rhs: Seq<usize>, s: Seq<T>)
    requires
        is_perm(lhs),
        is_perm(rhs),
        lhs.len() == rhs.len(),
        s.len() == lhs.len(),
    ensures
        seq_apply(seq_compose(lhs, rhs), s) == seq_apply(rhs, seq_apply(lhs, s)),
{
    assert(seq_apply(seq_compose(lhs, rhs), s) =~= seq_apply(rhs, seq_apply(lhs, s)));
}

/// Applying a permutation rearranges a sequence: the multiset of elements
/// is unchanged.
pub proof fn lemma_apply_preserves_multiset<T>(p: Seq<usize>, s: Seq<T>)
    requires
        is_perm(p),
        p.len() == s.len(),
        p.len() <= usize::MAX,
    ensures
        seq_apply(p, s).to_multiset() == s.to_multiset(),
    decreases p.len(),
{
    broadcast use vstd::seq_lib::group_to_multiset_ensures;

    let applied = seq_apply(p, s);
    if p.len() == 0 {
        assert(applied =~= s);
    } else {
        let n = p.len() as int;
        lemma_is_perm_surjective(p);
        assert(p.contains((n - 1) as usize));
        assert(exists|k: int| 0 <= k < n && p[k] == (n - 1) as usize);
        let k = choose|k: int| 0 <= k < n && p[k] == (n - 1) as usize;
        let p2 = p.remove(k);
        let s2 = s.drop_last();
        assert(is_perm(p2)) by {
            assert forall|x: int| 0 <= x < p2.len() implies (#[trigger] p2[x]) < p2.len() by {
                if x < k {
                    assert(p2[x] == p[x] && p[x] != p[k]);
                } else {
                    assert(p2[x] == p[x + 1] && p[x + 1] != p[k]);
                }
            }
            assert forall|x: int, y: int|
                0 <= x < p2.len() && 0 <= y < p2.len() && x != y implies p2[x] != p2[y] by {
                assert(p2[x] == (if x < k { p[x] } else { p[x + 1] }));
                assert(p2[y] == (if y < k { p[y] } else { p[y + 1] }));
            }
        }
        assert(applied.remove(k) =~= seq_apply(p2, s2)) by {
            assert forall|x: int|
                0 <= x < n - 1 implies applied.remove(k)[x] == seq_apply(p2, s2)[x] by {
                if x < k {
                    assert(applied.remove(k)[x] == applied[x]);
                    assert(p2[x] == p[x] && p[x] != p[k]);
                } else {
                    assert(applied.remove(k)[x] == applied[x + 1]);
                    assert(p2[x] == p[x + 1] && p[x + 1] != p[k]);
                }
            }
        }
        lemma_apply_preserves_multiset(p2, s2);
        assert(applied[k] == s.last());
        assert(applied.remove(k).to_multiset() == applied.to_multiset().remove(applied[k]));
        assert(applied.contains(applied[k]));
        assert(applied.to_multiset().remove(applied[k]).insert(applied[k])
            =~= applied.to_multiset());
        assert(s =~= s2.push(s.last()));
        assert(s2.push(s.last()).to_multiset() =~= s2.to_multiset().insert(s.last()));
        assert(applied.to_multiset() =~= s.to_multiset());
    }
}

/// Sort-derivation is correct: applying a permutation that lists a data
/// array's indices in non-decreasing key order yields exactly the sorted
/// data array, element multiset included.
pub proof fn lemma_sort_derivation(keys: Seq<i64>, order: Seq<usize>)
    requires
        is_perm(order),
        order.len() == keys.len(),
        keys.len() <= usize::MAX,
        sorted_by_keys(keys, order),
    ensures
        seq_apply(order, keys).to_multiset() == keys.to_multiset(),
        forall|a: int, b: int|
            0 <= a < b < keys.len() ==> #[trigger] seq_apply(order, keys)[a]
                <= #[trigger] seq_apply(order, keys)[b],
{
    lemma_apply_preserves_multiset(order, keys);
    let applied = seq_apply(order, keys);
    assert forall|a: int, b: int|
        0 <= a < b < keys.len() implies #[trigger] applied[a] <= #[trigger] applied[b] by {
        assert(key_lt(keys, order[a], order[b]));
    }
}

/// Helper for the power law: the `e`-th power of the cyclic shift moves
/// position `d` to draw from position `(d - e) mod n`.
proof fn lemma_cycle_pow_entries(n: nat, e: nat)
    requires
        1 <= n <= usize::MAX,
    ensures
        seq_pow(seq_cycle(n), e).len() == n,
        forall|d: int|
            0 <= d < n ==> (#[trigger] seq_pow(seq_cycle(n), e)[d]) as int == (d - e) % (n as int),
    decreases e,
{
    let c = seq_cycle(n);
    let m = n as int;
    if e == 0 {
        assert forall|d: int|
            0 <= d < n implies (#[trigger] seq_pow(c, 0)[d]) as int == (d - 0) % m by {
            lemma_small_mod(d as nat, n);
            assert(seq_pow(c, 0)[d] == seq_identity(n)[d]);
        }
    } else {
        let e1 = (e - 1) as nat;
        lemma_cycle_pow_entries(n, e1);
        assert forall|d: int|
            0 <= d < n implies (#[trigger] seq_pow(c, e)[d]) as int == (d - e) % m by {
            assert(seq_pow(c, e)[d] == seq_pow(c, e1)[c[d] as int]);
            let cd = c[d] as int;
            assert(cd == (d - 1) % m) by {
                if d == 0 {
                    lemma_mod_multiples_vanish(-1, m - 1, m);
                    lemma_small_mod((m - 1) as nat, n);
                } else {
                    lemma_small_mod((d - 1) as nat, n);
                }
            }
            assert(seq_pow(c, e1)[cd] as int == (cd - e1) % m);
            lemma_sub_mod_noop(d - 1, e1 as int, m);
            assert(((d - 1) % m - (e1 as int) % m) % m == (d - 1 - e1) % m);
            lemma_sub_mod_noop(cd, e1 as int, m);
            assert((cd % m - (e1 as int) % m) % m == (cd - e1) % m);
            lemma_small_mod(cd as nat, n);
        }
    }
}

/// The power law for the cyclic shift on `n` elements: the `n`-th power
/// is the identity, the `(n-1)`-th power is the downward shift, and the
/// downward shift is exactly the upward shift's inverse.
pub proof fn lemma_cycle_power_law(n: nat)
    requires
        1 <= n <= usize::MAX,
    ensures
        seq_pow(seq_cycle(n), n) == seq_identity(n),
        seq_pow(seq_cycle(n), (n - 1) as nat) == seq_reverse_cycle(n),
        seq_reverse_cycle(n) == seq_inverse(seq_cycle(n)),
{
    let c = seq_cycle(n);
    let rc = seq_reverse_cycle(n);
    let m = n as int;
    lemma_cycle_pow_entries(n, n);
    assert forall|d: int| 0 <= d < n implies seq_pow(c, n)[d] == seq_identity(n)[d] by {
        lemma_mod_multiples_vanish(-1, d, m);
        lemma_small_mod(d as nat, n);
        assert(seq_pow(c, n)[d] as int == (d - m) % m);
    }
    assert(seq_pow(c, n) =~= seq_identity(n));
    lemma_cycle_pow_entries(n, (n - 1) as nat);
    assert forall|d: int| 0 <= d < n implies seq_pow(c, (n - 1) as nat)[d] == rc[d] by {
        assert(seq_pow(c, (n - 1) as nat)[d] as int == (d - (n - 1)) % m);
        if d == n - 1 {
            lemma_small_mod(0, n);
        } else {
            lemma_mod_multiples_vanish(-1, d + 1, m);
            lemma_small_mod((d + 1) as nat, n);
        }
    }
    assert(seq_pow(c, (n - 1) as nat) =~= rc);
    crate::model::lemma_seq_cycle_is_perm(n);
    lemma_seq_inverse_props(c);
    lemma_is_perm_surjective(c);
    let q = seq_inverse(c);
    assert forall|v: int| 0 <= v < n implies rc[v] == q[v] by {
        assert(c.contains(v as usize));
        assert(exists|d: int| 0 <= d < n && c[d] == v as usize);
        let d = choose|d: int| 0 <= d < n && c[d] == v as usize;
        assert(q[v] as int == d) by {
            assert(q[c[d] as int] as int == d);
        }
        assert(rc[v] as int == d) by {
            if d == 0 {
                assert(v == n - 1);
            } else {
                assert(v == d - 1);
            }
        }
    }
    assert(rc =~= q);
}

} // verus!

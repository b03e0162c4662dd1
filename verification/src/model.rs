//! The mathematical model: permutations as sequences of indices.
//!
//! Everything the executable API promises is phrased over these spec
//! functions. A permutation value of size `n` is modelled by a
//! `Seq<usize>` whose entries are exactly the numbers `0, ..., n-1` in
//! some order; `is_perm` states that. The entry at position `dst` names
//! the source position whose element lands at `dst` on application.

use vstd::prelude::*;
use vstd::relations::injective_on;
use vstd::set_lib::{lemma_int_range, lemma_len_subset, lemma_map_size, lemma_subset_equality,
    set_int_range};

verus! {

/// `s` is a bijection on `[0, s.len())`: every entry is in range and no
/// entry repeats.
pub open spec fn is_perm(s: Seq<usize>) -> bool {
    &&& forall|i: int| 0 <= i < s.len() ==> (#[trigger] s[i]) < s.len()
    &&& forall|i: int, j: int|
        0 <= i < s.len() && 0 <= j < s.len() && i != j ==> s[i] != s[j]
}

/// The identity permutation of size `n`: every position maps to itself.
pub open spec fn seq_identity(n: nat) -> Seq<usize> {
    Seq::new(n, |i: int| i as usize)
}

/// The result of applying permutation `p` to `s`: the element that ends up
/// at `dst` is the one that sat at `p[dst]`.
pub open spec fn seq_apply<T>(p: Seq<usize>, s: Seq<T>) -> Seq<T>
    recommends
        p.len() == s.len(),
        is_perm(p),
{
    Seq::new(s.len(), |dst: int| s[p[dst] as int])
}

/// The product of `lhs` and `rhs`: applying the product once is applying
/// `lhs` and then `rhs`, so position `dst` draws from `lhs[rhs[dst]]`.
pub open spec fn seq_compose(lhs: Seq<usize>, rhs: Seq<usize>) -> Seq<usize>
    recommends
        lhs.len() == rhs.len(),
        is_perm(lhs),
        is_perm(rhs),
{
    Seq::new(rhs.len(), |dst: int| lhs[rhs[dst] as int])
}

/// The inverse of `p`: position `v` holds the unique `d` with `p[d] == v`.
pub open spec fn seq_inverse(p: Seq<usize>) -> Seq<usize>
    recommends
        is_perm(p),
{
    Seq::new(p.len(), |v: int| (choose|d: int| 0 <= d < p.len() && p[d] == v as usize) as usize)
}

/// `p` raised to the `e`-th power under `seq_compose`, with the identity
/// as the zeroth power.
pub open spec fn seq_pow(p: Seq<usize>, e: nat) -> Seq<usize>
    recommends
        is_perm(p),
    decreases e,
{
    if e == 0 {
        seq_identity(p.len())
    } else {
        seq_compose(seq_pow(p, (e - 1) as nat), p)
    }
}

/// The transposition of positions `a` and `b` in a permutation of size `n`.
pub open spec fn seq_swap(n: nat, a: nat, b: nat) -> Seq<usize>
    recommends
        a < n,
        b < n,
{
    Seq::new(
        n,
        |d: int| if d == a { b as usize } else if d == b { a as usize } else { d as usize },
    )
}

/// The cyclic shift that moves every element one position up (the element
/// at the last position wraps around to position zero).
pub open spec fn seq_cycle(n: nat) -> Seq<usize> {
    Seq::new(n, |d: int| if d == 0 { (n - 1) as usize } else { (d - 1) as usize })
}

/// The cyclic shift that moves every element one position down (the element
/// at position zero wraps around to the last position).
pub open spec fn seq_reverse_cycle(n: nat) -> Seq<usize> {
    Seq::new(n, |d: int| if d == n - 1 { 0usize } else { (d + 1) as usize })
}

/// Every position of `p` from `m` on is a fixed point.
pub open spec fn fixes_from(p: Seq<usize>, m: nat) -> bool {
    forall|d: int| m <= d < p.len() ==> p[d] == d as usize
}

/// `p` carried over to size `m`: positions below both sizes keep their
/// entry, positions gained by growing map to themselves.
pub open spec fn seq_resize(p: Seq<usize>, m: nat) -> Seq<usize> {
    Seq::new(m, |d: int| if d < p.len() { p[d] } else { d as usize })
}

/// The transposition is a permutation.
pub proof fn lemma_seq_swap_is_perm(n: nat, a: nat, b: nat)
    requires
        a < n,
        b < n,
        n <= usize::MAX,
    ensures
        is_perm(seq_swap(n, a, b)),
        seq_swap(n, a, b).len() == n,
{
    let s = seq_swap(n, a, b);
    assert forall|i: int| 0 <= i < n implies (#[trigger] s[i]) < n by {}
    assert forall|i: int, j: int|
        0 <= i < n && 0 <= j < n && i != j implies s[i] != s[j] by {}
}

/// The upward cyclic shift is a permutation.
pub proof fn lemma_seq_cycle_is_perm(n: nat)
    requires
        1 <= n <= usize::MAX,
    ensures
        is_perm(seq_cycle(n)),
        seq_cycle(n).len() == n,
{
    let s = seq_cycle(n);
    assert forall|i: int| 0 <= i < n implies (#[trigger] s[i]) < n by {}
    assert forall|i: int, j: int|
        0 <= i < n && 0 <= j < n && i != j implies s[i] != s[j] by {}
}

/// The downward cyclic shift is a permutation.
pub proof fn lemma_seq_reverse_cycle_is_perm(n: nat)
    requires
        1 <= n <= usize::MAX,
    ensures
        is_perm(seq_reverse_cycle(n)),
        seq_reverse_cycle(n).len() == n,
{
    let s = seq_reverse_cycle(n);
    assert forall|i: int| 0 <= i < n implies (#[trigger] s[i]) < n by {}
    assert forall|i: int, j: int|
        0 <= i < n && 0 <= j < n && i != j implies s[i] != s[j] by {}
}

/// Resizing keeps the permutation property as long as every position cut
/// off by shrinking was a fixed point.
pub proof fn lemma_seq_resize_is_perm(p: Seq<usize>, m: nat)
    requires
        is_perm(p),
        p.len() <= usize::MAX,
        m <= usize::MAX,
        fixes_from(p, m),
    ensures
        is_perm(seq_resize(p, m)),
        seq_resize(p, m).len() == m,
{
    let r = seq_resize(p, m);
    assert forall|i: int| 0 <= i < m implies (#[trigger] r[i]) < m by {
        if i < p.len() {
            let v = p[i];
            if v as int >= m {
                assert(p[v as int] == v);
                assert(i != v as int);
            }
        }
    }
    assert forall|i: int, j: int|
        0 <= i < m && 0 <= j < m && i != j implies r[i] != r[j] by {
        if i < p.len() && j >= p.len() {
            assert((r[i] as int) < p.len() <= j == r[j] as int);
        }
        if j < p.len() && i >= p.len() {
            assert((r[j] as int) < p.len() <= i == r[i] as int);
        }
    }
}

/// A permutation hits every value in `[0, len)`: injectivity on a finite
/// domain of the same size forces surjectivity.
pub proof fn lemma_is_perm_surjective(p: Seq<usize>)
    requires
        is_perm(p),
    ensures
        forall|v: usize| (v as int) < p.len() ==> #[trigger] p.contains(v),
{
    let n = p.len() as int;
    let dom = set_int_range(0, n);
    let f = |d: int| p[d] as int;
    let image = dom.map(f);
    lemma_int_range(0, n);
    assert(injective_on(f, dom));
    lemma_map_size(dom, image, f);
    assert(image.subset_of(set_int_range(0, n))) by {
        assert forall|v: int| image.contains(v) implies set_int_range(0, n).contains(v) by {
            let d = choose|d: int| dom.contains(d) && f(d) == v;
            assert(0 <= p[d] < n);
        }
    }
    lemma_len_subset(image, set_int_range(0, n));
    lemma_subset_equality(image, set_int_range(0, n));
    assert forall|v: usize| (v as int) < p.len() implies #[trigger] p.contains(v) by {
        assert(set_int_range(0, n).contains(v as int));
        assert(image.contains(v as int));
        let d = choose|d: int| dom.contains(d) && f(d) == v as int;
        assert(p[d] == v);
    }
}

/// `s` with the entry at `i` moved to position `j`, everything between
/// shifted up by one.
pub open spec fn seq_move(s: Seq<usize>, i: int, j: int) -> Seq<usize>
    recommends
        0 <= j <= i < s.len(),
{
    s.remove(i).insert(j, s[i])
}

/// Moving one entry of a permutation re-orders it but keeps it a
/// permutation; the lemma also spells out where every entry lands.
pub proof fn lemma_seq_move_is_perm(s: Seq<usize>, i: int, j: int)
    requires
        is_perm(s),
        0 <= j <= i < s.len(),
    ensures
        seq_move(s, i, j).len() == s.len(),
        is_perm(seq_move(s, i, j)),
        forall|x: int| 0 <= x < j ==> seq_move(s, i, j)[x] == s[x],
        seq_move(s, i, j)[j] == s[i],
        forall|x: int| j < x <= i ==> seq_move(s, i, j)[x] == s[x - 1],
        forall|x: int| i < x < s.len() ==> seq_move(s, i, j)[x] == s[x],
{
    let t = seq_move(s, i, j);
    assert(t.len() == s.len());
    assert forall|x: int| 0 <= x < j implies t[x] == s[x] by {}
    assert forall|x: int| j < x <= i implies t[x] == s[x - 1] by {}
    assert forall|x: int| i < x < s.len() implies t[x] == s[x] by {}
    let back = |x: int| if x < j { x } else if x == j { i } else if x <= i { x - 1 } else { x };
    assert forall|x: int| 0 <= x < t.len() implies (#[trigger] t[x]) < t.len() by {
        assert(t[x] == s[back(x)]);
    }
    assert forall|x1: int, x2: int|
        0 <= x1 < t.len() && 0 <= x2 < t.len() && x1 != x2 implies t[x1] != t[x2] by {
        assert(t[x1] == s[back(x1)]);
        assert(t[x2] == s[back(x2)]);
        assert(back(x1) != back(x2));
    }
}

/// A sequence of distinct integers drawn from `[0, n)` has at most `n`
/// entries.
pub proof fn lemma_distinct_bounded_len(s: Seq<int>, n: int)
    requires
        n >= 0,
        s.no_duplicates(),
        forall|t: int| 0 <= t < s.len() ==> 0 <= #[trigger] s[t] < n,
    ensures
        s.len() <= n,
{
    s.unique_seq_to_set();
    lemma_int_range(0, n);
    assert(s.to_set().subset_of(set_int_range(0, n))) by {
        assert forall|x: int| s.to_set().contains(x) implies set_int_range(0, n).contains(x) by {
            let t = choose|t: int| 0 <= t < s.len() && s[t] == x;
            assert(0 <= s[t] < n);
        }
    }
    lemma_len_subset(s.to_set(), set_int_range(0, n));
}

/// The identity is a permutation.
pub proof fn lemma_seq_identity_is_perm(n: nat)
    requires
        n <= usize::MAX,
    ensures
        is_perm(seq_identity(n)),
        seq_identity(n).len() == n,
{
    assert forall|i: int| 0 <= i < n implies (#[trigger] seq_identity(n)[i]) < n by {
        assert(seq_identity(n)[i] == i as usize);
    }
}

/// Composing with the identity on either side changes nothing.
pub proof fn lemma_seq_compose_identity(q: Seq<usize>)
    requires
        is_perm(q),
        q.len() <= usize::MAX,
    ensures
        seq_compose(q, seq_identity(q.len())) == q,
        seq_compose(seq_identity(q.len()), q) == q,
{
    let n = q.len();
    assert forall|d: int| 0 <= d < n implies seq_compose(q, seq_identity(n))[d] == q[d] by {
        assert(seq_identity(n)[d] == d as usize);
    }
    assert forall|d: int| 0 <= d < n implies seq_compose(seq_identity(n), q)[d] == q[d] by {
        assert(seq_identity(n)[q[d] as int] == q[d]);
    }
    assert(seq_compose(q, seq_identity(q.len())) =~= q);
    assert(seq_compose(seq_identity(q.len()), q) =~= q);
}

/// The product of two equal-size permutations is again a permutation.
pub proof fn lemma_seq_compose_is_perm(lhs: Seq<usize>, rhs: Seq<usize>)
    requires
        is_perm(lhs),
        is_perm(rhs),
        lhs.len() == rhs.len(),
    ensures
        is_perm(seq_compose(lhs, rhs)),
        seq_compose(lhs, rhs).len() == lhs.len(),
{
    let c = seq_compose(lhs, rhs);
    assert forall|i: int, j: int|
        0 <= i < c.len() && 0 <= j < c.len() && i != j implies c[i] != c[j] by {
        assert(rhs[i] != rhs[j]);
    }
}

/// Composition of permutations is associative.
pub proof fn lemma_seq_compose_assoc(a: Seq<usize>, b: Seq<usize>, c: Seq<usize>)
    requires
        is_perm(a),
        is_perm(b),
        is_perm(c),
        a.len() == b.len(),
        b.len() == c.len(),
    ensures
        seq_compose(seq_compose(a, b), c) == seq_compose(a, seq_compose(b, c)),
{
    assert(seq_compose(seq_compose(a, b), c) =~= seq_compose(a, seq_compose(b, c)));
}

/// What `seq_inverse` promises: it undoes `p` on both sides and is itself
/// a permutation.
pub proof fn lemma_seq_inverse_props(p: Seq<usize>)
    requires
        is_perm(p),
        p.len() <= usize::MAX,
    ensures
        seq_inverse(p).len() == p.len(),
        forall|d: int| 0 <= d < p.len() ==> seq_inverse(p)[#[trigger] p[d] as int] as int == d,
        forall|v: int|
            0 <= v < p.len() ==> (#[trigger] seq_inverse(p)[v]) < p.len()
                && p[seq_inverse(p)[v] as int] as int == v,
        is_perm(seq_inverse(p)),
{
    let q = seq_inverse(p);
    let n = p.len() as int;
    lemma_is_perm_surjective(p);
    assert forall|v: int|
        0 <= v < n implies (#[trigger] q[v]) < p.len() && p[q[v] as int] as int == v by {
        assert(p.contains(v as usize));
        assert(exists|d: int| 0 <= d < p.len() && p[d] == v as usize);
    }
    assert forall|d: int|
        0 <= d < n implies q[#[trigger] p[d] as int] as int == d by {
        let v = p[d] as int;
        assert(p[q[v] as int] as int == v);
        assert(q[v] as int == d);
    }
    assert forall|i: int, j: int|
        0 <= i < q.len() && 0 <= j < q.len() && i != j implies q[i] != q[j] by {
        assert(p[q[i] as int] as int == i);
        assert(p[q[j] as int] as int == j);
    }
}

/// A power of a permutation is a permutation of the same size.
pub proof fn lemma_seq_pow_is_perm(p: Seq<usize>, e: nat)
    requires
        is_perm(p),
        p.len() <= usize::MAX,
    ensures
        is_perm(seq_pow(p, e)),
        seq_pow(p, e).len() == p.len(),
    decreases e,
{
    if e == 0 {
        lemma_seq_identity_is_perm(p.len());
    } else {
        lemma_seq_pow_is_perm(p, (e - 1) as nat);
        lemma_seq_compose_is_perm(seq_pow(p, (e - 1) as nat), p);
    }
}

/// Powers add under composition: `p^(a + b) == p^a * p^b`.
pub proof fn lemma_seq_pow_add(p: Seq<usize>, a: nat, b: nat)
    requires
        is_perm(p),
        p.len() <= usize::MAX,
    ensures
        seq_pow(p, a + b) == seq_compose(seq_pow(p, a), seq_pow(p, b)),
    decreases b,
{
    lemma_seq_pow_is_perm(p, a);
    if b == 0 {
        lemma_seq_compose_identity(seq_pow(p, a));
    } else {
        let b1 = (b - 1) as nat;
        lemma_seq_pow_add(p, a, b1);
        lemma_seq_pow_is_perm(p, b1);
        lemma_seq_compose_assoc(seq_pow(p, a), seq_pow(p, b1), p);
    }
}

} // verus!

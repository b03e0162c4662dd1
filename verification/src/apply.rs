//! In-place application of a permutation to a sequence.
//!
//! The applier decomposes the index mapping into disjoint cycles
//! implicitly: for every position not yet visited it walks the cycle
//! through that position, swapping elements along the way, so every
//! element moves exactly once into its final slot. A visited bitmap
//! guarantees each cycle is processed exactly once; a single temporary
//! per swap is the only extra element storage.

use vstd::prelude::*;

use crate::model::{is_perm, lemma_distinct_bounded_len, seq_apply};
use crate::perm_type::{PermD, PermError, PermS};

verus! {

/// Walks the one cycle of `indices` through `start` and puts every
/// element on that cycle into its final slot. `orig` names the state the
/// whole reordering started from; positions already visited hold their
/// final element, all others still hold their original one, and the
/// visited set is a union of complete cycles.
fn walk_cycle<T: Copy>(
    indices: &Vec<usize>,
    visited: &mut Vec<bool>,
    target: &mut Vec<T>,
    start: usize,
    Ghost(orig): Ghost<Seq<T>>,
)
    requires
        is_perm(indices@),
        old(visited)@.len() == indices@.len(),
        old(target)@.len() == indices@.len(),
        orig.len() == indices@.len(),
        (start as int) < indices@.len(),
        !old(visited)@[start as int],
        forall|d: int|
            0 <= d < indices@.len() && old(visited)@[d] ==> old(target)@[d] == orig[indices@[d] as int],
        forall|d: int|
            0 <= d < indices@.len() && !old(visited)@[d] ==> old(target)@[d] == orig[d],
        forall|d: int|
            0 <= d < indices@.len() ==> (old(visited)@[d] <==> old(visited)@[indices@[d] as int]),
    ensures
        final(visited)@.len() == old(visited)@.len(),
        final(target)@.len() == old(target)@.len(),
        forall|d: int|
            0 <= d < indices@.len() && final(visited)@[d] ==> final(target)@[d] == orig[indices@[d] as int],
        forall|d: int|
            0 <= d < indices@.len() && !final(visited)@[d] ==> final(target)@[d] == orig[d],
        forall|d: int|
            0 <= d < indices@.len() ==> (final(visited)@[d] <==> final(visited)@[indices@[d] as int]),
        final(visited)@[start as int],
        forall|d: int| 0 <= d < indices@.len() && old(visited)@[d] ==> final(visited)@[d],
{
    let ghost p = indices@;
    let ghost v0 = old(visited)@;
    let ghost n = p.len() as int;
    let ghost mut path: Seq<int> = Seq::empty();
    let mut dst: usize = start;
    loop
        invariant_except_break
            is_perm(p),
            indices@ == p,
            p.len() == n,
            orig.len() == n,
            v0.len() == n,
            visited@.len() == n,
            target@.len() == n,
            0 <= start < n,
            !v0[start as int],
            0 <= dst < n,
            !visited@[dst as int],
            target@[dst as int] == orig[start as int],
            forall|d: int| 0 <= d < n && visited@[d] ==> target@[d] == orig[p[d] as int],
            forall|d: int| 0 <= d < n && !visited@[d] && d != dst ==> target@[d] == orig[d],
            forall|d: int| 0 <= d < n ==> (visited@[d] <==> (v0[d] || path.contains(d))),
            forall|d: int| 0 <= d < n ==> (v0[d] <==> v0[p[d] as int]),
            path.no_duplicates(),
            forall|t: int| 0 <= t < path.len() ==> 0 <= #[trigger] path[t] < n,
            path.len() == 0 ==> dst == start,
            path.len() > 0 ==> path[0] == start as int && p[path.last()] as int == dst as int,
            forall|t: int| 0 <= t < path.len() - 1 ==> p[#[trigger] path[t]] as int == path[t + 1],
            path.len() <= n,
        ensures
            visited@.len() == n,
            target@.len() == n,
            forall|d: int| 0 <= d < n && visited@[d] ==> target@[d] == orig[p[d] as int],
            forall|d: int| 0 <= d < n && !visited@[d] ==> target@[d] == orig[d],
            forall|d: int| 0 <= d < n ==> (visited@[d] <==> visited@[p[d] as int]),
            visited@[start as int],
            forall|d: int| 0 <= d < n && v0[d] ==> visited@[d],
        decreases n - path.len(),
    {
        proof {
            // The position about to be marked is fresh: everything on the
            // path is already marked visited.
            assert(!path.contains(dst as int));
        }
        visited[dst] = true;
        proof {
            let path0 = path;
            path = path.push(dst as int);
            assert(path.last() == dst as int);
            assert forall|d: int| #[trigger] path.contains(d) implies (path0.contains(d)
                || d == dst as int) by {
                let t = choose|t: int| 0 <= t < path.len() && path[t] == d;
                if t < path0.len() {
                    assert(path0[t] == d);
                }
            }
            assert forall|d: int| #[trigger] path0.contains(d) implies path.contains(d) by {
                let t = choose|t: int| 0 <= t < path0.len() && path0[t] == d;
                assert(path[t] == d);
            }
            assert(path.contains(dst as int));
            assert(path.no_duplicates()) by {
                assert forall|i: int, j: int|
                    0 <= i < path.len() && 0 <= j < path.len() && i != j
                    implies path[i] != path[j] by {
                    if i < path0.len() && j < path0.len() {
                        assert(path0[i] != path0[j]);
                    } else if i < path0.len() {
                        assert(path[i] == path0[i] && path[j] == dst as int);
                        if path0[i] == dst as int {
                            assert(path0.contains(dst as int));
                        }
                    } else if j < path0.len() {
                        assert(path[j] == path0[j] && path[i] == dst as int);
                        if path0[j] == dst as int {
                            assert(path0.contains(dst as int));
                        }
                    }
                }
            }
            assert forall|t: int|
                0 <= t < path.len() - 1 implies p[#[trigger] path[t]] as int == path[t + 1] by {
                if t < path0.len() - 1 {
                    assert(p[path0[t]] as int == path0[t + 1]);
                } else {
                    assert(t == path0.len() - 1);
                    assert(path[t] == path0.last());
                    assert(p[path0.last()] as int == dst as int);
                }
            }
            assert(path[0] == start as int);
            assert forall|t: int| 0 <= t < path.len() implies 0 <= #[trigger] path[t] < n by {}
            lemma_distinct_bounded_len(path, n);
        }
        let src = indices[dst];
        proof {
            assert(p[path.last()] as int == src as int);
        }
        if visited[src] {
            proof {
                // The first revisited position closes the cycle: it must
                // be the start.
                assert(path.last() == dst as int);
                if v0[src as int] {
                    assert(v0[dst as int]);
                    assert(false);
                } else {
                    assert(path.contains(src as int));
                    let t = choose|t: int| 0 <= t < path.len() && path[t] == src as int;
                    if t > 0 {
                        assert(p[path[t - 1]] as int == path[t]);
                        assert(p[path[t - 1]] == p[dst as int]);
                        assert(path[t - 1] == dst as int);
                        assert(path[path.len() - 1] == dst as int);
                        assert(t - 1 == path.len() - 1);
                        assert(false);
                    }
                    assert(path[0] == start as int);
                }
                assert(src == start);
                // Every adjacent pair on the path steps through `p`, and
                // `p` wraps the last position back to the start, so the
                // path is a complete cycle: the visited set stays a union
                // of complete cycles.
                assert forall|d: int|
                    0 <= d < n implies (visited@[d] <==> visited@[p[d] as int]) by {
                    if visited@[d] {
                        if v0[d] {
                            assert(visited@[p[d] as int]);
                        } else {
                            let t = choose|t: int| 0 <= t < path.len() && path[t] == d;
                            if t < path.len() - 1 {
                                assert(p[path[t]] as int == path[t + 1]);
                                assert(path.contains(path[t + 1]));
                            } else {
                                assert(d == dst as int);
                                assert(path.contains(start as int));
                            }
                        }
                    }
                    if visited@[p[d] as int] {
                        if v0[p[d] as int] {
                            assert(v0[d]);
                        } else {
                            let t = choose|t: int| 0 <= t < path.len() && path[t] == p[d] as int;
                            if t > 0 {
                                assert(p[path[t - 1]] as int == path[t]);
                                assert(path[t - 1] == d);
                                assert(path.contains(d));
                            } else {
                                assert(p[d] as int == start as int);
                                assert(p[dst as int] == start);
                                assert(d == dst as int);
                            }
                        }
                    }
                }
                assert(visited@[start as int]) by {
                    assert(path[0] == start as int || dst == start);
                    assert(path.contains(start as int));
                }
            }
            break;
        }
        let tmp = target[dst];
        let moved = target[src];
        target[dst] = moved;
        target[src] = tmp;
        proof {
            assert(!path.contains(src as int));
        }
        dst = src;
    }
}

/// Reorders `target` so that, for every destination `d`, the element that
/// ends up at `d` is the one that originally sat at `indices[d]`.
fn apply_indices<T: Copy>(indices: &Vec<usize>, target: &mut Vec<T>)
    requires
        is_perm(indices@),
        old(target)@.len() == indices@.len(),
    ensures
        final(target)@ == seq_apply(indices@, old(target)@),
{
    let ghost orig = target@;
    let ghost p = indices@;
    let n = indices.len();
    let mut visited: Vec<bool> = Vec::new();
    let mut i: usize = 0;
    while i < n
        invariant
            i <= n,
            visited@.len() == i,
            forall|k: int| 0 <= k < i ==> !visited@[k],
        decreases n - i,
    {
        visited.push(false);
        i = i + 1;
    }
    let mut idx: usize = 0;
    while idx < n
        invariant
            idx <= n,
            indices@ == p,
            is_perm(p),
            p.len() == n,
            orig.len() == n,
            visited@.len() == n,
            target@.len() == n,
            forall|d: int| 0 <= d < n && visited@[d] ==> target@[d] == orig[p[d] as int],
            forall|d: int| 0 <= d < n && !visited@[d] ==> target@[d] == orig[d],
            forall|d: int| 0 <= d < n ==> (visited@[d] <==> visited@[p[d] as int]),
            forall|d: int| 0 <= d < idx ==> visited@[d],
        decreases n - idx,
    {
        let seen = visited[idx];
        if !seen {
            walk_cycle(indices, &mut visited, target, idx, Ghost(orig));
        }
        idx = idx + 1;
    }
    proof {
        assert(target@ =~= seq_apply(p, orig));
    }
}

impl<const SIZE: usize> PermS<SIZE> {
    /// Applies the permutation to `input` in place: afterwards the element
    /// at every position `d` is the one that sat at `self.indices()[d]`.
    /// A sequence of the wrong length is rejected before any element
    /// moves.
    pub fn apply<T: Copy>(&self, input: &mut Vec<T>) -> (r: Result<(), PermError>)
        ensures
            r is Ok <==> old(input)@.len() == SIZE,
            is_perm(self@),
            self@.len() == SIZE,
            r is Ok ==> final(input)@ == seq_apply(self@, old(input)@),
            r is Err ==> final(input)@ == old(input)@,
            r matches Err(e) ==> e == PermError::LengthMismatch,
    {
        let indices = self.raw();
        if input.len() != indices.len() {
            return Err(PermError::LengthMismatch);
        }
        apply_indices(indices, input);
        Ok(())
    }
}

impl PermD {
    /// Applies the permutation to `input` in place: afterwards the element
    /// at every position `d` is the one that sat at `self.indices()[d]`.
    /// A sequence of the wrong length is rejected before any element
    /// moves.
    pub fn apply<T: Copy>(&self, input: &mut Vec<T>) -> (r: Result<(), PermError>)
        ensures
            r is Ok <==> old(input)@.len() == self@.len(),
            is_perm(self@),
            r is Ok ==> final(input)@ == seq_apply(self@, old(input)@),
            r is Err ==> final(input)@ == old(input)@,
            r matches Err(e) ==> e == PermError::LengthMismatch,
    {
        let indices = self.raw();
        if input.len() != indices.len() {
            return Err(PermError::LengthMismatch);
        }
        apply_indices(indices, input);
        Ok(())
    }
}

} // verus!

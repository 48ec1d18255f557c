//! The expiry index: a binary min-heap of hints `(instant, key)`.
//!
//! The index is only a hint structure. It may hold entries for keys whose
//! expiry has since been dropped or replaced; whoever pops an entry checks
//! it against the TTL map.
use vstd::prelude::*;
use vstd::multiset::Multiset;
use vstd::seq_lib::{to_multiset_build, to_multiset_contains, to_multiset_remove, to_multiset_update};
use crate::order::{
    hint_le,
    hint_le_exec,
    lemma_hint_le_antisym,
    lemma_hint_le_refl,
    lemma_hint_le_total,
    lemma_hint_le_trans,
    Hint,
};

verus! {

/// The hint that a stored pair stands for.
pub open spec fn hint_of(p: (u64, String)) -> Hint {
    (p.0, p.1@)
}

/// The hints that a vector of pairs stands for, in the vector's order.
pub open spec fn hints_of(v: Seq<(u64, String)>) -> Seq<Hint> {
    v.map_values(|p: (u64, String)| hint_of(p))
}

/// Index of the parent of node `i` in the implicit tree.
pub open spec fn parent(i: int) -> int {
    (i - 1) / 2
}

/// Every node but the root is at or above its parent.
pub open spec fn heap_ordered(s: Seq<Hint>) -> bool {
    forall|j: int| 0 < j < s.len() ==> hint_le(s[parent(j)], #[trigger] s[j])
}

/// Heap order everywhere but between `i` and its parent; the children of
/// `i` are at or above the parent of `i`.
spec fn ordered_but_up(s: Seq<Hint>, i: int) -> bool {
    &&& forall|j: int| 0 < j < s.len() && j != i ==> hint_le(s[parent(j)], #[trigger] s[j])
    &&& forall|j: int|
        0 < j < s.len() && parent(j) == i && i > 0 ==> hint_le(s[parent(i)], #[trigger] s[j])
}

/// Heap order everywhere but between `i` and its children; the children of
/// `i` are at or above the parent of `i`.
spec fn ordered_but_down(s: Seq<Hint>, i: int) -> bool {
    &&& forall|j: int|
        0 < j < s.len() && parent(j) != i ==> hint_le(s[parent(j)], #[trigger] s[j])
    &&& forall|j: int|
        0 < j < s.len() && parent(j) == i && i > 0 ==> hint_le(s[parent(i)], #[trigger] s[j])
}

/// `h` occurs in `m` and nothing in `m` is below it.
pub open spec fn is_least(m: Multiset<Hint>, h: Hint) -> bool {
    &&& m.count(h) > 0
    &&& forall|x: Hint| m.count(x) > 0 ==> hint_le(h, x)
}

/// The least hint of a non-empty multiset.
pub open spec fn least(m: Multiset<Hint>) -> Hint {
    choose|h: Hint| is_least(m, h)
}

/// A multiset has at most one least hint.
pub proof fn lemma_least_unique(m: Multiset<Hint>, h: Hint)
    requires
        is_least(m, h),
    ensures
        least(m) == h,
{
    let g = least(m);
    assert(is_least(m, g));
    lemma_hint_le_antisym(g, h);
}

proof fn lemma_swap_hints(s: Seq<Hint>, i: int, j: int)
    requires
        0 <= i < s.len(),
        0 <= j < s.len(),
    ensures
        s.update(i, s[j]).update(j, s[i]).to_multiset() == s.to_multiset(),
{
    broadcast use vstd::multiset::group_multiset_axioms;

    let t = s.update(i, s[j]);
    to_multiset_update(s, i, s[j]);
    to_multiset_update(t, j, s[i]);
    to_multiset_contains(s, s[i]);
    to_multiset_contains(s, s[j]);
    assert(s.contains(s[i]));
    assert(s.contains(s[j]));
    assert(t.update(j, s[i]).to_multiset() =~= s.to_multiset());
}

proof fn lemma_hints_update(v: Seq<(u64, String)>, i: int, p: (u64, String))
    requires
        0 <= i < v.len(),
    ensures
        hints_of(v.update(i, p)) == hints_of(v).update(i, hint_of(p)),
{
    assert(hints_of(v.update(i, p)) =~= hints_of(v).update(i, hint_of(p)));
}

proof fn lemma_root_least(s: Seq<Hint>, i: int)
    requires
        heap_ordered(s),
        0 <= i < s.len(),
    ensures
        hint_le(s[0], s[i]),
    decreases i,
{
    if i == 0 {
        lemma_hint_le_refl(s[0]);
    } else {
        lemma_root_least(s, parent(i));
        lemma_hint_le_trans(s[0], s[parent(i)], s[i]);
    }
}

proof fn lemma_root_is_least(s: Seq<Hint>)
    requires
        heap_ordered(s),
        s.len() > 0,
    ensures
        is_least(s.to_multiset(), s[0]),
{
    let m = s.to_multiset();
    assert(m.count(s[0]) > 0) by {
        to_multiset_contains(s, s[0]);
        assert(s.contains(s[0]));
    }
    assert forall|x: Hint| m.count(x) > 0 implies hint_le(s[0], x) by {
        to_multiset_contains(s, x);
        let i = choose|i: int| 0 <= i < s.len() && s[i] == x;
        lemma_root_least(s, i);
    }
}

/// Exchanges the pairs at `i` and `j`.
fn swap_items(v: &mut Vec<(u64, String)>, i: usize, j: usize)
    requires
        i < old(v).len(),
        j < old(v).len(),
    ensures
        final(v)@ == old(v)@.update(i as int, old(v)@[j as int]).update(j as int, old(v)@[i as int]),
{
    if i != j {
        let mut tmp = (0u64, String::new());
        core::mem::swap(&mut v[i], &mut tmp);
        core::mem::swap(&mut v[j], &mut tmp);
        core::mem::swap(&mut v[i], &mut tmp);
    }
}

/// A min-ordered collection of expiry hints.
pub struct ExpiryIndex {
    heap: Vec<(u64, String)>,
}

impl View for ExpiryIndex {
    type V = Multiset<Hint>;

    /// The hints held, each as often as it was pushed and not yet popped.
    closed spec fn view(&self) -> Multiset<Hint> {
        hints_of(self.heap@).to_multiset()
    }
}

impl ExpiryIndex {
    /// The heap order holds.
    pub closed spec fn wf(&self) -> bool {
        heap_ordered(hints_of(self.heap@))
    }

    /// An index with no hint in it.
    pub fn new() -> (r: Self)
        ensures
            r.wf(),
            r@ == Multiset::<Hint>::empty(),
    {
        let r = ExpiryIndex { heap: Vec::new() };
        proof {
            assert(hints_of(r.heap@) =~= Seq::<Hint>::empty());
            hints_of(r.heap@).to_multiset_ensures();
            assert(r@ =~= Multiset::<Hint>::empty());
        }
        r
    }

    /// How many hints are held.
    pub fn len(&self) -> (n: usize)
        ensures
            n == self@.len(),
    {
        proof {
            hints_of(self.heap@).to_multiset_ensures();
        }
        self.heap.len()
    }

    /// Adds the hint `(at, key)`.
    pub fn push(&mut self, at: u64, key: String)
        requires
            old(self).wf(),
        ensures
            final(self).wf(),
            final(self)@ == old(self)@.insert((at, key@)),
    {
        let ghost before = hints_of(self.heap@);
        let ghost h: Hint = (at, key@);
        self.heap.push((at, key));
        proof {
            assert(hints_of(self.heap@) =~= before.push(h));
            to_multiset_build(before, h);
        }
        let mut i: usize = self.heap.len() - 1;
        while i > 0
            invariant
                i < self.heap.len(),
                ordered_but_up(hints_of(self.heap@), i as int),
                hints_of(self.heap@).to_multiset() == before.to_multiset().insert(h),
            ensures
                heap_ordered(hints_of(self.heap@)),
                hints_of(self.heap@).to_multiset() == before.to_multiset().insert(h),
            decreases i,
        {
            let p: usize = (i - 1) / 2;
            let ghost s = hints_of(self.heap@);
            if hint_le_exec(
                self.heap[p].0,
                self.heap[p].1.as_str(),
                self.heap[i].0,
                self.heap[i].1.as_str(),
            ) {
                break ;
            }
            proof {
                lemma_hint_le_total(s[p as int], s[i as int]);
                lemma_swap_hints(s, p as int, i as int);
                lemma_hints_update(self.heap@, p as int, self.heap@[i as int]);
                lemma_hints_update(
                    self.heap@.update(p as int, self.heap@[i as int]),
                    i as int,
                    self.heap@[p as int],
                );
            }
            swap_items(&mut self.heap, p, i);
            proof {
                let t = hints_of(self.heap@);
                assert(t == s.update(p as int, s[i as int]).update(i as int, s[p as int]));
                assert forall|j: int| 0 < j < t.len() && j != p implies hint_le(
                    t[parent(j)],
                    #[trigger] t[j],
                ) by {
                    if j == i {
                    } else if parent(j) == p {
                        lemma_hint_le_trans(s[i as int], s[p as int], s[j]);
                    } else if parent(j) == i {
                    } else {
                    }
                }
                assert forall|j: int| 0 < j < t.len() && parent(j) == p && p > 0 implies hint_le(
                    t[parent(p as int)],
                    #[trigger] t[j],
                ) by {
                    if j == i {
                    } else {
                        lemma_hint_le_trans(s[parent(p as int)], s[p as int], s[j]);
                    }
                }
            }
            i = p;
        }
    }

    /// The expiry instant of the least hint, if there is any hint.
    pub fn peek(&self) -> (r: Option<u64>)
        requires
            self.wf(),
        ensures
            r is None <==> self@.len() == 0,
            r matches Some(at) ==> at == least(self@).0,
    {
        proof {
            hints_of(self.heap@).to_multiset_ensures();
        }
        if self.heap.len() == 0 {
            None
        } else {
            proof {
                lemma_root_is_least(hints_of(self.heap@));
                lemma_least_unique(self@, hints_of(self.heap@)[0]);
            }
            Some(self.heap[0].0)
        }
    }

    /// Takes the least hint out, if there is any hint.
    pub fn pop(&mut self) -> (r: Option<(u64, String)>)
        requires
            old(self).wf(),
        ensures
            final(self).wf(),
            r is None <==> old(self)@.len() == 0,
            r is None ==> final(self)@ == old(self)@,
            r matches Some(p) ==> hint_of(p) == least(old(self)@) && is_least(
                old(self)@,
                hint_of(p),
            ) && final(self)@ == old(self)@.remove(hint_of(p)),
    {
        let ghost before = hints_of(self.heap@);
        proof {
            before.to_multiset_ensures();
        }
        let n: usize = self.heap.len();
        if n == 0 {
            return None;
        }
        proof {
            lemma_root_is_least(before);
            lemma_least_unique(self@, before[0]);
            lemma_swap_hints(before, 0, n - 1);
            lemma_hints_update(self.heap@, 0, self.heap@[n - 1]);
            lemma_hints_update(self.heap@.update(0, self.heap@[n - 1]), n - 1, self.heap@[0]);
        }
        swap_items(&mut self.heap, 0, n - 1);
        let ghost swapped = hints_of(self.heap@);
        let top = self.heap.pop().unwrap();
        proof {
            let s = hints_of(self.heap@);
            assert(hint_of(top) == before[0]);
            assert(s =~= swapped.remove(n - 1));
            to_multiset_remove(swapped, n - 1);
            assert forall|j: int| 0 < j < s.len() && parent(j) != 0 implies hint_le(
                s[parent(j)],
                #[trigger] s[j],
            ) by {
                assert(s[j] == before[j]);
                assert(s[parent(j)] == before[parent(j)]);
            }
        }
        let ghost target = before.to_multiset().remove(before[0]);
        let m: usize = self.heap.len();
        let mut i: usize = 0;
        while i < m / 2
            invariant
                m == self.heap.len(),
                m < usize::MAX,
                i <= m,
                ordered_but_down(hints_of(self.heap@), i as int),
                hints_of(self.heap@).to_multiset() == target,
            ensures
                heap_ordered(hints_of(self.heap@)),
                hints_of(self.heap@).to_multiset() == target,
            decreases m - i,
        {
            let l: usize = 2 * i + 1;
            let r: usize = l + 1;
            let ghost s = hints_of(self.heap@);
            let mut c: usize = l;
            if r < m && !hint_le_exec(
                self.heap[l].0,
                self.heap[l].1.as_str(),
                self.heap[r].0,
                self.heap[r].1.as_str(),
            ) {
                c = r;
            }
            proof {
                if r < m {
                    lemma_hint_le_total(s[l as int], s[r as int]);
                }
                lemma_hint_le_refl(s[c as int]);
            }
            assert(forall|j: int| 0 < j < m && parent(j) == i ==> hint_le(s[c as int], #[trigger] s[j])) by {
                assert forall|j: int| 0 < j < m && parent(j) == i implies hint_le(
                    s[c as int],
                    #[trigger] s[j],
                ) by {
                    assert(j == l || j == r);
                }
            }
            if hint_le_exec(
                self.heap[i].0,
                self.heap[i].1.as_str(),
                self.heap[c].0,
                self.heap[c].1.as_str(),
            ) {
                proof {
                    assert forall|j: int| 0 < j < s.len() implies hint_le(
                        s[parent(j)],
                        #[trigger] s[j],
                    ) by {
                        if parent(j) == i {
                            lemma_hint_le_trans(s[i as int], s[c as int], s[j]);
                        }
                    }
                }
                break ;
            }
            proof {
                lemma_hint_le_total(s[i as int], s[c as int]);
                lemma_swap_hints(s, i as int, c as int);
                lemma_hints_update(self.heap@, i as int, self.heap@[c as int]);
                lemma_hints_update(
                    self.heap@.update(i as int, self.heap@[c as int]),
                    c as int,
                    self.heap@[i as int],
                );
            }
            swap_items(&mut self.heap, i, c);
            proof {
                let t = hints_of(self.heap@);
                assert(t == s.update(i as int, s[c as int]).update(c as int, s[i as int]));
                assert forall|j: int| 0 < j < t.len() && parent(j) != c implies hint_le(
                    t[parent(j)],
                    #[trigger] t[j],
                ) by {
                    if j == c {
                    } else if parent(j) == i {
                    } else if j == i {
                    } else {
                    }
                }
                assert forall|j: int| 0 < j < t.len() && parent(j) == c && c > 0 implies hint_le(
                    t[parent(c as int)],
                    #[trigger] t[j],
                ) by {
                    assert(t[parent(c as int)] == s[c as int]);
                    assert(t[j] == s[j]);
                    assert(hint_le(s[parent(j)], s[j]));
                }
            }
            i = c;
        }
        Some(top)
    }
}

} // verus!

use core::cmp::Ordering;

use crate::order::score_le;
use crate::scored_item::ScoredItem;
use vstd::laws_cmp::obeys_cmp;
use vstd::multiset::Multiset;
use vstd::prelude::*;

verus! {

/// Index of the parent of heap slot `i`.
pub open spec fn parent(i: int) -> int {
    (i - 1) / 2
}

/// The binary-heap shape: every slot except the root scores no higher than
/// its parent.
pub open spec fn heap_ordered<T, S: Ord>(s: Seq<ScoredItem<T, S>>) -> bool {
    forall|i: int| #![trigger s[i]] 0 < i < s.len() ==> score_le(s[i].score, s[parent(i)].score)
}

/// A stored entry as a (score, item) pair.
pub open spec fn entry_pair<T, S: Ord>(si: ScoredItem<T, S>) -> (S, T) {
    (si.score, si.item)
}

/// The (score, item) pairs of a heap sequence, slot by slot.
pub open spec fn pairs<T, S: Ord>(s: Seq<ScoredItem<T, S>>) -> Seq<(S, T)> {
    s.map_values(|si: ScoredItem<T, S>| entry_pair(si))
}

/// The heap shape everywhere except that the entry in slot `c` may still
/// score higher than its parent; on its way up it already ranks no higher
/// than its grandparent, and its children rank no higher than its parent.
pub open spec fn up_heap_except<T, S: Ord>(s: Seq<ScoredItem<T, S>>, c: int) -> bool {
    &&& forall|i: int|
        #![trigger s[i]]
        0 < i < s.len() && i != c ==> score_le(s[i].score, s[parent(i)].score)
    &&& c > 0 ==> forall|d: int|
        #![trigger s[d]]
        0 < d < s.len() && parent(d) == c ==> score_le(s[d].score, s[parent(c)].score)
}

/// The heap shape everywhere except that the children of slot `c` may still
/// score higher than it; on its way down the entry's children already rank
/// no higher than `c`'s parent.
pub open spec fn down_heap_except<T, S: Ord>(s: Seq<ScoredItem<T, S>>, c: int) -> bool {
    &&& forall|i: int|
        #![trigger s[i]]
        0 < i < s.len() && parent(i) != c ==> score_le(s[i].score, s[parent(i)].score)
    &&& c > 0 ==> forall|d: int|
        #![trigger s[d]]
        0 < d < s.len() && parent(d) == c ==> score_le(s[d].score, s[parent(c)].score)
}

/// The parent of any slot below the root lies strictly before it.
proof fn lemma_parent_in_range(i: int)
    requires
        1 <= i,
    ensures
        0 <= parent(i) < i,
{
}

/// Slot `i` is a child of slot `c` exactly when it is one of `2c + 1` and
/// `2c + 2`.
proof fn lemma_children(c: int, i: int)
    requires
        0 <= c,
        1 <= i,
    ensures
        parent(i) == c <==> (i == 2 * c + 1 || i == 2 * c + 2),
{
}

/// Exchanging two entries of a sequence leaves its multiset of entries
/// unchanged.
proof fn lemma_swap_multiset<A>(s: Seq<A>, i: int, j: int)
    requires
        0 <= i < j < s.len(),
    ensures
        s.update(i, s[j]).update(j, s[i]).to_multiset() == s.to_multiset(),
{
    broadcast use vstd::seq_lib::group_to_multiset_ensures;
    broadcast use vstd::multiset::group_multiset_axioms;

    let s1 = s.update(i, s[j]);
    assert(s.contains(s[i]));
    assert(s.to_multiset().count(s[i]) > 0);
    assert(s1.to_multiset() == s.to_multiset().insert(s[j]).remove(s[i]));
    assert(s1[j] == s[j]);
    assert(s1.update(j, s[i]).to_multiset() == s1.to_multiset().insert(s[i]).remove(s1[j]));
    assert(s.to_multiset().insert(s[j]).remove(s[i]).insert(s[i]).remove(s[j])
        =~= s.to_multiset());
}

/// Any pair among a heap sequence's contents sits in some slot.
proof fn lemma_contents_member<T, S: Ord>(s: Seq<ScoredItem<T, S>>, p: (S, T)) -> (i: int)
    requires
        pairs(s).to_multiset().contains(p),
    ensures
        0 <= i < s.len(),
        s[i].score == p.0,
        s[i].item == p.1,
{
    broadcast use vstd::seq_lib::group_to_multiset_ensures;

    assert(pairs(s).contains(p));
    let i = choose|i: int| 0 <= i < pairs(s).len() && pairs(s)[i] == p;
    i
}

/// A sequence with the heap shape scores no slot above the root.
proof fn lemma_root_max<T, S: Ord>(s: Seq<ScoredItem<T, S>>, i: int)
    requires
        obeys_cmp::<S>(),
        heap_ordered(s),
        0 <= i < s.len(),
    ensures
        score_le(s[i].score, s[0].score),
    decreases i,
{
    if i > 0 {
        lemma_parent_in_range(i);
        lemma_root_max(s, parent(i));
        crate::order::lemma_score_le_trans(s[i].score, s[parent(i)].score, s[0].score);
    } else {
        crate::order::lemma_score_le_refl(s[0].score);
    }
}

/// Exchanges the entries in slots `i` and `j`.
fn swap_slots<T, S: Ord + Copy>(heap: &mut Vec<ScoredItem<T, S>>, i: usize, j: usize)
    requires
        i < j < old(heap).len(),
    ensures
        final(heap)@ == old(heap)@.update(i as int, old(heap)@[j as int]).update(
            j as int,
            old(heap)@[i as int],
        ),
{
    let slots = heap.as_mut_slice();
    let (front, back) = slots.split_at_mut(j);
    let (_, tail) = front.split_at_mut(i);
    let a = tail.first_mut().unwrap();
    let b = back.first_mut().unwrap();
    core::mem::swap(a, b);
    proof {
        assert(final(heap)@ =~= old(heap)@.update(i as int, old(heap)@[j as int]).update(
            j as int,
            old(heap)@[i as int],
        ));
    }
}

/// Restores the heap shape after the entry in slot `start` may have been
/// given too high a score: the entry climbs until its parent ranks at least
/// as high.
fn sift_up<T, S: Ord + Copy>(heap: &mut Vec<ScoredItem<T, S>>, start: usize)
    requires
        start < old(heap).len(),
        obeys_cmp::<S>() ==> up_heap_except(old(heap)@, start as int),
    ensures
        final(heap)@.len() == old(heap)@.len(),
        pairs(final(heap)@).to_multiset() == pairs(old(heap)@).to_multiset(),
        obeys_cmp::<S>() ==> heap_ordered(final(heap)@),
{
    let mut c = start;
    while c > 0
        invariant
            c < heap@.len(),
            heap@.len() == old(heap)@.len(),
            pairs(heap@).to_multiset() == pairs(old(heap)@).to_multiset(),
            obeys_cmp::<S>() ==> up_heap_except(heap@, c as int),
        decreases c,
    {
        let p = (c - 1) / 2;
        proof {
            lemma_parent_in_range(c as int);
        }
        let climb = matches!(heap[c].score.cmp(&heap[p].score), Ordering::Greater);
        if climb {
            let ghost h = heap@;
            let ghost ci = c as int;
            let ghost pi = p as int;
            swap_slots(heap, p, c);
            proof {
                assert(pairs(heap@) =~= pairs(h).update(pi, pairs(h)[ci]).update(
                    ci,
                    pairs(h)[pi],
                ));
                lemma_swap_multiset(pairs(h), pi, ci);
                if obeys_cmp::<S>() {
                    crate::order::lemma_obeys_cmp_spec_visible::<S>();
                    assert(!score_le(h[ci].score, h[pi].score));
                    crate::order::lemma_score_le_total(h[ci].score, h[pi].score);
                    let hn = heap@;
                    assert forall|i: int| 0 < i < hn.len() && i != pi implies score_le(
                        hn[i].score,
                        hn[parent(i)].score,
                    ) by {
                        lemma_parent_in_range(i);
                        if i == ci {
                        } else if parent(i) == pi {
                            crate::order::lemma_score_le_trans(
                                h[i].score,
                                h[pi].score,
                                h[ci].score,
                            );
                        } else if parent(i) == ci {
                            lemma_children(ci, i);
                        }
                    };
                    if pi > 0 {
                        assert forall|d: int| 0 < d < heap@.len() && parent(d) == pi implies
                            score_le(heap@[d].score, heap@[parent(pi)].score) by {
                            lemma_parent_in_range(pi);
                            if d != ci {
                                crate::order::lemma_score_le_trans(
                                    h[d].score,
                                    h[pi].score,
                                    h[parent(pi)].score,
                                );
                            }
                        };
                    }
                    assert(up_heap_except(heap@, pi));
                }
            }
            c = p;
        } else {
            proof {
                if obeys_cmp::<S>() {
                    crate::order::lemma_obeys_cmp_spec_visible::<S>();
                    assert(score_le(heap@[c as int].score, heap@[parent(c as int)].score));
                    assert(heap_ordered(heap@));
                }
            }
            return ;
        }
    }
    proof {
        if obeys_cmp::<S>() {
            assert(heap_ordered(heap@));
        }
    }
}

/// Restores the heap shape after the entry in slot `start` may have been
/// given too low a score: the entry descends, trading places with its
/// higher-scoring child, until no child outranks it.
fn sift_down<T, S: Ord + Copy>(heap: &mut Vec<ScoredItem<T, S>>, start: usize)
    requires
        start < old(heap).len(),
        obeys_cmp::<S>() ==> down_heap_except(old(heap)@, start as int),
    ensures
        final(heap)@.len() == old(heap)@.len(),
        pairs(final(heap)@).to_multiset() == pairs(old(heap)@).to_multiset(),
        obeys_cmp::<S>() ==> heap_ordered(final(heap)@),
{
    let len = heap.len();
    let mut c = start;
    while c < len / 2
        invariant
            c < len,
            len == heap@.len(),
            heap@.len() == old(heap)@.len(),
            pairs(heap@).to_multiset() == pairs(old(heap)@).to_multiset(),
            obeys_cmp::<S>() ==> down_heap_except(heap@, c as int),
        decreases len - c,
    {
        let l = 2 * c + 1;
        let mut m = l;
        if l + 1 < len {
            if matches!(heap[l + 1].score.cmp(&heap[l].score), Ordering::Greater) {
                m = l + 1;
            }
        }
        proof {
            if obeys_cmp::<S>() {
                crate::order::lemma_obeys_cmp_spec_visible::<S>();
                if m == l + 1 {
                    crate::order::lemma_score_le_total(
                        heap@[l + 1].score,
                        heap@[l as int].score,
                    );
                }
            }
        }
        let descend = matches!(heap[m].score.cmp(&heap[c].score), Ordering::Greater);
        if descend {
            let ghost h = heap@;
            let ghost ci = c as int;
            let ghost mi = m as int;
            swap_slots(heap, c, m);
            proof {
                assert(pairs(heap@) =~= pairs(h).update(ci, pairs(h)[mi]).update(
                    mi,
                    pairs(h)[ci],
                ));
                lemma_swap_multiset(pairs(h), ci, mi);
                if obeys_cmp::<S>() {
                    crate::order::lemma_score_le_total(h[mi].score, h[ci].score);
                    let hn = heap@;
                    assert forall|i: int| 0 < i < hn.len() && parent(i) != mi implies score_le(
                        hn[i].score,
                        hn[parent(i)].score,
                    ) by {
                        lemma_parent_in_range(i);
                        lemma_children(ci, i);
                        if i == ci {
                            lemma_parent_in_range(ci);
                        }
                    };
                    assert forall|d: int| 0 < d < heap@.len() && parent(d) == mi implies score_le(
                        heap@[d].score,
                        heap@[parent(mi)].score,
                    ) by {
                        lemma_parent_in_range(mi);
                        lemma_children(mi, d);
                    };
                    assert(down_heap_except(heap@, mi));
                }
            }
            c = m;
        } else {
            proof {
                if obeys_cmp::<S>() {
                    let h = heap@;
                    let ci = c as int;
                    let mi = m as int;
                    assert(score_le(h[mi].score, h[ci].score));
                    assert forall|i: int| 0 < i < h.len() implies score_le(
                        h[i].score,
                        h[parent(i)].score,
                    ) by {
                        lemma_children(ci, i);
                        if parent(i) == ci && i != mi {
                            crate::order::lemma_score_le_trans(
                                h[i].score,
                                h[mi].score,
                                h[ci].score,
                            );
                        }
                    };
                    assert(heap_ordered(heap@));
                }
            }
            return ;
        }
    }
    proof {
        if obeys_cmp::<S>() {
            assert forall|i: int| 0 < i < heap@.len() implies score_le(
                heap@[i].score,
                heap@[parent(i)].score,
            ) by {
                lemma_children(c as int, i);
            };
            assert(heap_ordered(heap@));
        }
    }
}

/// A priority queue with a score function.
#[verifier::reject_recursive_types(T)]
#[verifier::reject_recursive_types(S)]
pub struct PriorityQueue<T, S: Ord + Copy, F: Fn(&T) -> S> {
    heap: Vec<ScoredItem<T, S>>,
    score_fn: F,
}

impl<T, S: Ord + Copy, F: Fn(&T) -> S> PriorityQueue<T, S, F> {
    /// The scored entries now in the queue, as an unordered collection of
    /// (score, item) pairs.
    pub closed spec fn contents(self) -> Multiset<(S, T)> {
        self.heap@.map_values(|si: ScoredItem<T, S>| entry_pair(si)).to_multiset()
    }

    /// The score function the queue was built with.
    pub closed spec fn scorer(self) -> F {
        self.score_fn
    }

    /// Stored entries respect the heap shape whenever `S`'s comparison is
    /// lawful; every queue the library hands out satisfies this.
    pub closed spec fn wf(self) -> bool {
        obeys_cmp::<S>() ==> heap_ordered(self.heap@)
    }

    /// The entry at the front of the queue: the one `peek` shows and `pop`
    /// removes, meaningful only while the queue is not empty.
    pub closed spec fn front(self) -> (S, T) {
        entry_pair(self.heap@[0])
    }

    /// Creates a new priority queue with the given score function.
    pub fn new(score_fn: F) -> (q: Self)
        ensures
            q.wf(),
            q.contents() == Multiset::<(S, T)>::empty(),
            q.scorer() == score_fn,
    {
        let heap = Vec::new();
        proof {
            broadcast use vstd::seq_lib::group_to_multiset_ensures;
            broadcast use vstd::multiset::group_multiset_axioms;

            assert(heap@.map_values(|si: ScoredItem<T, S>| entry_pair(si)) =~= Seq::<(S,
            T)>::empty());
            assert(Seq::<(S, T)>::empty().to_multiset() =~= Multiset::<(S, T)>::empty());
        }
        Self { heap, score_fn }
    }

    /// Pushes an item into the queue with the given score
    /// without using the score function.
    pub fn push_with_score(&mut self, item: T, score: S)
        requires
            old(self).wf(),
        ensures
            final(self).wf(),
            final(self).scorer() == old(self).scorer(),
            final(self).contents() == old(self).contents().insert((score, item)),
    {
        let ghost h = self.heap@;
        self.heap.push(ScoredItem { score, item });
        proof {
            broadcast use vstd::seq_lib::group_to_multiset_ensures;

            let ghost last = h.len() as int;
            assert(pairs(self.heap@) =~= pairs(h).push((score, item)));
            assert(pairs(h).push((score, item)).to_multiset() == pairs(h).to_multiset().insert(
                (score, item),
            ));
            if obeys_cmp::<S>() {
                assert forall|d: int| 0 < d < self.heap@.len() && parent(d) == last implies
                    score_le(self.heap@[d].score, self.heap@[parent(last)].score) by {
                    lemma_children(last, d);
                }
                assert(up_heap_except(self.heap@, last));
            }
        }
        let last = self.heap.len() - 1;
        sift_up(&mut self.heap, last);
    }

    /// Pushes an item into the queue.
    /// The score of the item is calculated by the score function.
    pub fn push(&mut self, item: T)
        requires
            old(self).wf(),
            call_requires(old(self).scorer(), (&item,)),
        ensures
            final(self).wf(),
            final(self).scorer() == old(self).scorer(),
            exists|s: S|
                #[trigger] call_ensures(old(self).scorer(), (&item,), s) && final(self).contents()
                    == old(self).contents().insert((s, item)),
    {
        let score = (self.score_fn)(&item);
        self.push_with_score(item, score);
    }

    /// Returns the reference to the first elements in the queue.
    pub fn peek(&self) -> (r: Option<(S, &T)>)
        requires
            self.wf(),
        ensures
            r is None <==> self.contents().len() == 0,
            r matches Some(p) ==> {
                &&& (p.0, *p.1) == self.front()
                &&& self.contents().contains((p.0, *p.1))
                &&& obeys_cmp::<S>() ==> forall|q: (S, T)|
                    self.contents().contains(q) ==> score_le(q.0, p.0)
            },
    {
        proof {
            broadcast use vstd::seq_lib::group_to_multiset_ensures;
        }
        if self.heap.len() == 0 {
            None
        } else {
            let top = &self.heap[0];
            proof {
                let h = self.heap@;
                assert(pairs(h).contains(pairs(h)[0]));
                if obeys_cmp::<S>() {
                    assert forall|q: (S, T)| self.contents().contains(q) implies score_le(
                        q.0,
                        top.score,
                    ) by {
                        let i = lemma_contents_member(h, q);
                        lemma_root_max(h, i);
                    };
                }
            }
            Some((top.score, &top.item))
        }
    }

    /// Returns the first elements in the queue.
    pub fn pop(&mut self) -> (r: Option<(S, T)>)
        requires
            old(self).wf(),
        ensures
            final(self).wf(),
            final(self).scorer() == old(self).scorer(),
            r is None <==> old(self).contents().len() == 0,
            r is None ==> final(self).contents() == old(self).contents(),
            r matches Some(p) ==> {
                &&& p == old(self).front()
                &&& old(self).contents().contains(p)
                &&& final(self).contents() == old(self).contents().remove(p)
                &&& obeys_cmp::<S>() ==> forall|q: (S, T)|
                    old(self).contents().contains(q) ==> score_le(q.0, p.0)
            },
    {
        proof {
            broadcast use vstd::seq_lib::group_to_multiset_ensures;
            broadcast use vstd::multiset::group_multiset_axioms;
        }
        if self.heap.len() == 0 {
            return None;
        }
        let ghost h = self.heap@;
        proof {
            assert(pairs(h).contains(pairs(h)[0]));
            if obeys_cmp::<S>() {
                assert forall|q: (S, T)| old(self).contents().contains(q) implies score_le(
                    q.0,
                    h[0].score,
                ) by {
                    let i = lemma_contents_member(h, q);
                    lemma_root_max(h, i);
                };
            }
        }
        let top = self.heap.swap_remove(0);
        proof {
            broadcast use vstd::seq_lib::group_to_multiset_ensures;
            broadcast use vstd::multiset::group_multiset_axioms;

            let p = pairs(h);
            let n = p.len() as int;
            assert(p.contains(p[n - 1]));
            if n == 1 {
                assert(pairs(self.heap@) =~= p.remove(0));
                assert(pairs(self.heap@).to_multiset() == p.to_multiset().remove(p[0]));
            } else {
                let q = p.update(0, p[n - 1]);
                assert(pairs(self.heap@) =~= q.remove(n - 1));
                assert(q.to_multiset() == p.to_multiset().insert(p[n - 1]).remove(p[0]));
                assert(q.remove(n - 1).to_multiset() == q.to_multiset().remove(q[n - 1]));
                assert(p.to_multiset().insert(p[n - 1]).remove(p[0]).remove(p[n - 1])
                    =~= p.to_multiset().remove(p[0]));
            }
            if obeys_cmp::<S>() {
                assert forall|i: int|
                    0 < i < self.heap@.len() && parent(i) != 0 implies score_le(
                    self.heap@[i].score,
                    self.heap@[parent(i)].score,
                ) by {
                    lemma_parent_in_range(i);
                    assert(self.heap@[i] == h[i]);
                    assert(self.heap@[parent(i)] == h[parent(i)]);
                };
                assert(down_heap_except(self.heap@, 0));
            }
        }
        if self.heap.len() > 0 {
            sift_down(&mut self.heap, 0);
        }
        proof {
            broadcast use vstd::seq_lib::group_to_multiset_ensures;
        }
        Some((top.score, top.item))
    }

    /// Converts the priority queue into a vector of (score, item) pairs.
    pub fn into_vec(self) -> (r: Vec<(S, T)>)
        ensures
            r@.to_multiset() == self.contents(),
    {
        let ghost total = self.contents();
        let PriorityQueue { heap: mut heap, score_fn: _ } = self;
        let mut out: Vec<(S, T)> = Vec::new();
        proof {
            broadcast use vstd::seq_lib::group_to_multiset_ensures;
            broadcast use vstd::multiset::group_multiset_axioms;

            assert(out@.to_multiset() =~= Multiset::<(S, T)>::empty());
            assert(Multiset::<(S, T)>::empty().add(pairs(heap@).to_multiset()) =~= pairs(
                heap@,
            ).to_multiset());
        }
        while heap.len() > 0
            invariant
                out@.to_multiset().add(pairs(heap@).to_multiset()) == total,
            decreases heap@.len(),
        {
            let ghost h = heap@;
            let ghost before = out@;
            let si = heap.pop().unwrap();
            out.push((si.score, si.item));
            proof {
                broadcast use vstd::seq_lib::group_to_multiset_ensures;
                broadcast use vstd::multiset::group_multiset_axioms;

                let p = pairs(h);
                let n = p.len() as int;
                assert(p.contains(p[n - 1]));
                assert(pairs(heap@) =~= p.remove(n - 1));
                assert(pairs(heap@).to_multiset() == p.to_multiset().remove(p[n - 1]));
                assert(out@.to_multiset() == before.to_multiset().insert((si.score, si.item)));
                assert(before.to_multiset().insert(p[n - 1]).add(p.to_multiset().remove(p[n - 1]))
                    =~= before.to_multiset().add(p.to_multiset()));
            }
        }
        proof {
            broadcast use vstd::seq_lib::group_to_multiset_ensures;
            broadcast use vstd::multiset::group_multiset_axioms;

            assert(pairs(heap@).to_multiset().len() == 0);
            assert(out@.to_multiset().add(pairs(heap@).to_multiset()) =~= out@.to_multiset());
        }
        out
    }
}

} // verus!

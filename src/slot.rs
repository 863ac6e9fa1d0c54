//! Generational slot handles and the allocator that issues and recycles them.

use vstd::prelude::*;

verus! {

/// A reusable storage handle: a position (`index`) and the incarnation
/// (`generation`) currently occupying it.
#[derive(Clone, Copy, Debug, PartialEq, Eq, Structural)]
pub struct GenerationalIndex {
    pub index: usize,
    pub generation: u64,
}

impl GenerationalIndex {
    /// The storage position of this handle.
    pub fn index(&self) -> (r: usize)
        ensures
            r == self.index,
    {
        self.index
    }

    /// The incarnation counter of this handle.
    pub fn generation(&self) -> (r: u64)
        ensures
            r == self.generation,
    {
        self.generation
    }
}

/// Liveness and current generation of one index.
pub struct AllocatorEntry {
    pub is_live: bool,
    pub generation: u64,
}

/// Issues slot handles; a freed index is reused last-in first-out with its
/// generation bumped, so stale handles never name the new incarnation.
///
/// An index whose generation has reached `u64::MAX` is retired when freed
/// instead of being recycled, so generations never wrap.
pub struct GenerationalIndexAllocator {
    entries: Vec<AllocatorEntry>,
    free: Vec<usize>,
}

impl GenerationalIndexAllocator {
    /// Per index: whether it is live, and its current generation.
    pub closed spec fn entries_view(&self) -> Seq<(bool, u64)> {
        self.entries@.map_values(|e: AllocatorEntry| (e.is_live, e.generation))
    }

    /// The stack of reusable indices; the last one is handed out next.
    pub closed spec fn free_view(&self) -> Seq<usize> {
        self.free@
    }

    pub open spec fn len(&self) -> nat {
        self.entries_view().len()
    }

    pub open spec fn live_at(&self, i: int) -> bool {
        0 <= i < self.len() && self.entries_view()[i].0
    }

    pub open spec fn generation_at(&self, i: int) -> u64 {
        self.entries_view()[i].1
    }

    /// The free stack holds exactly the dead indices whose generation can
    /// still be bumped, each once.
    pub open spec fn wf(&self) -> bool {
        &&& self.free_view().no_duplicates()
        &&& forall|k: int|
            0 <= k < self.free_view().len() ==> {
                let i = #[trigger] self.free_view()[k] as int;
                0 <= i < self.len() && !self.entries_view()[i].0 && self.entries_view()[i].1
                    < u64::MAX
            }
        &&& forall|i: usize|
            i < self.len() && !#[trigger] self.entries_view()[i as int].0
                && self.entries_view()[i as int].1 < u64::MAX ==> self.free_view().contains(i)
    }

    /// The slot currently live at each live index.
    pub open spec fn is_live_slot(&self, s: GenerationalIndex) -> bool {
        self.live_at(s.index as int) && self.generation_at(s.index as int) == s.generation
    }

    /// The relation between the allocator before (`self`) and after
    /// (`post`) an allocation that handed out `r`.
    pub open spec fn allocates(&self, post: &Self, r: GenerationalIndex) -> bool {
        if self.free_view().len() > 0 {
            let i = self.free_view().last();
            &&& r.index == i
            &&& r.generation == self.generation_at(i as int) + 1
            &&& post.entries_view() == self.entries_view().update(i as int, (true, r.generation))
            &&& post.free_view() == self.free_view().drop_last()
        } else {
            &&& r.index == self.len()
            &&& r.generation == 0
            &&& post.entries_view() == self.entries_view().push((true, 0u64))
            &&& post.free_view() == self.free_view()
        }
    }

    /// The relation between the allocator before (`self`) and after
    /// (`post`) freeing the live index `i`.
    pub open spec fn frees(&self, post: &Self, i: usize) -> bool {
        &&& self.live_at(i as int)
        &&& post.entries_view() == self.entries_view().update(
            i as int,
            (false, self.generation_at(i as int)),
        )
        &&& post.free_view() == if self.generation_at(i as int) < u64::MAX {
            self.free_view().push(i)
        } else {
            self.free_view()
        }
    }

    /// `post` follows from `self` by one allocation or one deallocation.
    pub open spec fn steps_to(&self, post: &Self) -> bool {
        ||| exists|r: GenerationalIndex| #[trigger] self.allocates(post, r)
        ||| exists|i: usize| #[trigger] self.frees(post, i)
    }

    pub fn new() -> (r: Self)
        ensures
            r.wf(),
            r.entries_view() == Seq::<(bool, u64)>::empty(),
            r.free_view() == Seq::<usize>::empty(),
    {
        let r = GenerationalIndexAllocator { entries: Vec::new(), free: Vec::new() };
        assert(r.entries_view() =~= Seq::<(bool, u64)>::empty());
        r
    }

    /// Hands out a slot: the most recently freed index with its generation
    /// bumped, or a fresh index at generation 0.
    pub fn allocate(&mut self) -> (r: GenerationalIndex)
        requires
            old(self).wf(),
        ensures
            final(self).wf(),
            old(self).allocates(&*final(self), r),
            final(self).is_live_slot(r),
    {
        proof {
            self.lemma_view_len();
        }
        match self.free.pop() {
            Some(index) => {
                proof {
                    assert(self.free@ == old(self).free@.drop_last());
                    assert(old(self).free_view().contains(index));
                }
                let generation = self.entries[index].generation + 1;
                self.entries.set(index, AllocatorEntry { is_live: true, generation });
                let r = GenerationalIndex { index, generation };
                proof {
                    assert(self.entries_view() =~= old(self).entries_view().update(
                        index as int,
                        (true, generation),
                    ));
                    assert forall|k: int| 0 <= k < self.free_view().len() implies
                        #[trigger] self.free_view()[k] != index by {
                        assert(old(self).free_view()[k] == self.free_view()[k]);
                    }
                    assert forall|i: usize|
                        i < self.len() && !#[trigger] self.entries_view()[i as int].0
                            && self.entries_view()[i as int].1 < u64::MAX implies self.free_view().contains(
                        i,
                    ) by {
                        assert(i != index);
                        assert(old(self).entries_view()[i as int] == self.entries_view()[i as int]);
                        let k = choose|k: int|
                            0 <= k < old(self).free_view().len() && old(self).free_view()[k] == i;
                        assert(old(self).free_view()[old(self).free_view().len() - 1] == index);
                        assert(self.free_view()[k] == i);
                    }
                }
                r
            },
            None => {
                let index = self.entries.len();
                self.entries.push(AllocatorEntry { is_live: true, generation: 0 });
                proof {
                    assert(self.entries_view() =~= old(self).entries_view().push((true, 0u64)));
                }
                GenerationalIndex { index, generation: 0 }
            },
        }
    }

    /// Frees the index of `index`; returns false, changing nothing, when the
    /// index was never handed out. The generation is not checked: freeing
    /// goes by index alone.
    pub fn deallocate(&mut self, index: GenerationalIndex) -> (r: bool)
        requires
            old(self).wf(),
            (index.index as int) < old(self).len() ==> old(self).live_at(index.index as int),
        ensures
            final(self).wf(),
            r == ((index.index as int) < old(self).len()),
            r ==> final(self).entries_view() == old(self).entries_view().update(
                index.index as int,
                (false, old(self).generation_at(index.index as int)),
            ),
            r ==> final(self).free_view() == if old(self).generation_at(index.index as int)
                < u64::MAX {
                old(self).free_view().push(index.index)
            } else {
                old(self).free_view()
            },
            !r ==> final(self).entries_view() == old(self).entries_view()
                && final(self).free_view() == old(self).free_view(),
            r ==> old(self).frees(&*final(self), index.index),
    {
        proof {
            self.lemma_view_len();
        }
        let i = index.index;
        if i < self.entries.len() {
            let generation = self.entries[i].generation;
            self.entries.set(i, AllocatorEntry { is_live: false, generation });
            if generation < u64::MAX {
                self.free.push(i);
            }
            proof {
                assert(self.entries_view() =~= old(self).entries_view().update(
                    i as int,
                    (false, generation),
                ));
                assert(!old(self).free_view().contains(i));
                assert forall|k: int| 0 <= k < self.free_view().len() implies {
                    let j = #[trigger] self.free_view()[k] as int;
                    0 <= j < self.len() && !self.entries_view()[j].0 && self.entries_view()[j].1
                        < u64::MAX
                } by {
                    if k < old(self).free_view().len() {
                        assert(self.free_view()[k] == old(self).free_view()[k]);
                    }
                }
                assert forall|j: usize|
                    j < self.len() && !#[trigger] self.entries_view()[j as int].0
                        && self.entries_view()[j as int].1 < u64::MAX implies self.free_view().contains(
                    j,
                ) by {
                    if j != i {
                        let k = choose|k: int|
                            0 <= k < old(self).free_view().len() && old(self).free_view()[k] == j;
                        assert(self.free_view()[k] == j);
                    } else {
                        assert(self.free_view().last() == i);
                    }
                }
            }
            true
        } else {
            false
        }
    }

    /// Whether the index of `index` is live; the generation is not checked.
    pub fn is_live(&self, index: GenerationalIndex) -> (r: bool)
        ensures
            r == self.live_at(index.index as int),
    {
        proof {
            self.lemma_view_len();
        }
        if index.index < self.entries.len() {
            self.entries[index.index].is_live
        } else {
            false
        }
    }

    /// Whether `index` is exactly the incarnation live at its position.
    pub fn is_current(&self, index: GenerationalIndex) -> (r: bool)
        ensures
            r == self.is_live_slot(index),
    {
        proof {
            self.lemma_view_len();
        }
        if index.index < self.entries.len() {
            self.entries[index.index].is_live && self.entries[index.index].generation
                == index.generation
        } else {
            false
        }
    }

    /// At most one live slot per index: two live slots at the same index
    /// are the same slot, so no two live slots share an (index, generation)
    /// pair.
    pub proof fn lemma_live_slot_unique(&self, s1: GenerationalIndex, s2: GenerationalIndex)
        requires
            self.is_live_slot(s1),
            self.is_live_slot(s2),
            s1.index == s2.index,
        ensures
            s1 == s2,
    {
    }

    /// An allocation hands out a slot that was not live, and afterwards the
    /// live slots are the earlier ones plus the new one: along any sequence
    /// of allocations and deallocations no live slot is handed out twice.
    pub proof fn lemma_allocation_fresh(&self, post: &Self, r: GenerationalIndex)
        requires
            self.wf(),
            self.allocates(post, r),
        ensures
            !self.is_live_slot(r),
            forall|s: GenerationalIndex| #[trigger]
                post.is_live_slot(s) <==> (self.is_live_slot(s) || s == r),
    {
        if self.free_view().len() > 0 {
            let k = self.free_view().len() - 1;
            assert(self.free_view()[k] == r.index);
        }
    }

    /// Each allocation at an index that was handed out before carries a
    /// strictly greater generation than the index had, and no index's
    /// generation ever goes down.
    pub proof fn lemma_generation_increases(&self, post: &Self, r: GenerationalIndex)
        requires
            self.wf(),
            self.allocates(post, r),
        ensures
            r.index < self.len() ==> r.generation > self.generation_at(r.index as int),
            forall|i: int|
                0 <= i < self.len() ==> #[trigger] post.generation_at(i) >= self.generation_at(i),
    {
    }

    /// Along a run of allocations and deallocations no index disappears and
    /// no index's generation goes down.
    pub proof fn lemma_run_monotone(run: Seq<Self>, a: int, b: int)
        requires
            0 <= a <= b < run.len(),
            forall|k: int| 0 <= k < run.len() ==> #[trigger] run[k].wf(),
            forall|k: int| 0 <= k < run.len() - 1 ==> #[trigger] run[k].steps_to(&run[k + 1]),
        ensures
            run[a].len() <= run[b].len(),
            forall|i: int|
                0 <= i < run[a].len() ==> #[trigger] run[b].generation_at(i) >= run[a].generation_at(i),
        decreases b - a,
    {
        if a < b {
            Self::lemma_run_monotone(run, a, b - 1);
            let k = b - 1;
            assert(run[k].steps_to(&run[k + 1]));
            assert(run[k].wf());
            let x = run[k];
            let y = run[k + 1];
            if exists|r: GenerationalIndex| #[trigger] x.allocates(&y, r) {
                let r = choose|r: GenerationalIndex| #[trigger] x.allocates(&y, r);
                x.lemma_generation_increases(&y, r);
            } else {
                let j = choose|j: usize| #[trigger] x.frees(&y, j);
                assert forall|i: int| 0 <= i < x.len() implies #[trigger] y.generation_at(i)
                    >= x.generation_at(i) by {
                    if i != j {
                        assert(y.entries_view()[i] == x.entries_view()[i]);
                    }
                }
            }
            assert forall|i: int| 0 <= i < run[a].len() implies #[trigger] run[b].generation_at(i)
                >= run[a].generation_at(i) by {
                assert(x.generation_at(i) >= run[a].generation_at(i));
                assert(y.generation_at(i) >= x.generation_at(i));
            }
        }
    }

    /// Each successive allocation at an index carries a strictly greater
    /// generation: along a run of allocations and deallocations, a slot
    /// handed out later at the same index as an earlier one is newer.
    pub proof fn lemma_later_allocation_newer(
        run: Seq<Self>,
        k1: int,
        r1: GenerationalIndex,
        k2: int,
        r2: GenerationalIndex,
    )
        requires
            0 <= k1 < k2,
            k2 + 1 < run.len(),
            forall|k: int| 0 <= k < run.len() ==> #[trigger] run[k].wf(),
            forall|k: int| 0 <= k < run.len() - 1 ==> #[trigger] run[k].steps_to(&run[k + 1]),
            run[k1].allocates(&run[k1 + 1], r1),
            run[k2].allocates(&run[k2 + 1], r2),
            r1.index == r2.index,
        ensures
            r2.generation > r1.generation,
    {
        let p = run[k1 + 1];
        assert(run[k1].wf());
        assert(run[k2].wf());
        assert(p.len() > r1.index);
        assert(p.generation_at(r1.index as int) == r1.generation);
        Self::lemma_run_monotone(run, k1 + 1, k2);
        run[k2].lemma_generation_increases(&run[k2 + 1], r2);
    }

    proof fn lemma_view_len(&self)
        ensures
            self.entries_view().len() == self.entries@.len(),
            forall|i: int|
                0 <= i < self.entries@.len() ==> #[trigger] self.entries_view()[i] == (
                    self.entries@[i].is_live,
                    self.entries@[i].generation,
                ),
    {
    }
}

} // verus!

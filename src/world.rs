//! The entity registry: slot allocation, per-entity type masks, the live
//! list in build order, entity construction and mask-filtered queries.

use vstd::prelude::*;
use crate::array::{GenerationalIndexArray, lemma_lookup_stored, lemma_stored_in_range, stored_at};
use crate::slot::{GenerationalIndex, GenerationalIndexAllocator};
use crate::store::{ComponentMap, EcsError, component_in, join, write_component};

verus! {

/// An entity record: its slot and the set of component types it holds, as
/// one flag per type ordinal.
pub struct Entity {
    pub slot: GenerationalIndex,
    pub mask: Vec<bool>,
}

/// Whether the flags `mask` mark the type `t`.
pub open spec fn flagged(mask: Seq<bool>, t: int) -> bool {
    0 <= t < mask.len() && mask[t]
}

impl Entity {
    pub open spec fn mask_view(&self) -> Seq<bool> {
        self.mask@
    }

    /// Whether this record holds component type `t`.
    pub open spec fn holds(&self, t: int) -> bool {
        flagged(self.mask_view(), t)
    }

    /// An empty record at the default slot.
    pub fn empty() -> (r: Self)
        ensures
            r.slot == (GenerationalIndex { index: 0, generation: 0 }),
            r.mask@ == Seq::<bool>::empty(),
            forall|t: int| !r.holds(t),
    {
        Entity { slot: GenerationalIndex { index: 0, generation: 0 }, mask: Vec::new() }
    }

    /// Whether this record holds component type `ty`.
    pub fn has(&self, ty: usize) -> (r: bool)
        ensures
            r == self.holds(ty as int),
    {
        ty < self.mask.len() && self.mask[ty]
    }
}

/// Marks type `ty` in `flags`, growing them with unmarked types as needed.
fn raise_flag(flags: &mut Vec<bool>, ty: usize)
    ensures
        forall|t: int| #[trigger] flagged(final(flags)@, t) == (flagged(old(flags)@, t) || t == ty),
{
    while flags.len() <= ty
        invariant
            forall|t: int| #[trigger] flagged(flags@, t) == flagged(old(flags)@, t),
        decreases ty + 1 - flags@.len(),
    {
        let ghost prev = flags@;
        flags.push(false);
        assert forall|t: int| #[trigger] flagged(flags@, t) == flagged(prev, t) by {
            if 0 <= t < prev.len() {
                assert(flags@[t] == prev[t]);
            }
        }
    }
    let ghost prev = flags@;
    flags.set(ty, true);
    assert forall|t: int| #[trigger] flagged(flags@, t) == (flagged(prev, t) || t == ty) by {
        if 0 <= t < prev.len() && t != ty {
            assert(flags@[t] == prev[t]);
        }
    }
}

/// The registry: owns the allocator, the component store, one record per
/// slot index, and the list of built entities in the order they were built.
pub struct World<V> {
    allocator: GenerationalIndexAllocator,
    components: ComponentMap<V>,
    entities: Vec<Entity>,
    live: Vec<GenerationalIndex>,
}

impl<V> World<V> {
    pub closed spec fn slots(&self) -> GenerationalIndexAllocator {
        self.allocator
    }

    /// The contents of every component array, by type ordinal.
    pub closed spec fn arrays(&self) -> Seq<Seq<Option<(V, u64)>>> {
        self.components.arrays()
    }

    /// The built entities that have not been destroyed, in build order.
    pub closed spec fn live(&self) -> Seq<GenerationalIndex> {
        self.live@
    }

    /// The type flags of the record at each slot index.
    pub closed spec fn masks(&self) -> Seq<Seq<bool>> {
        self.entities@.map_values(|e: Entity| e.mask@)
    }

    /// The type flags of the record at slot index `i`.
    pub open spec fn mask_at(&self, i: int) -> Seq<bool> {
        self.masks()[i]
    }

    proof fn lemma_masks(&self)
        ensures
            self.masks().len() == self.entities@.len(),
            forall|i: int|
                0 <= i < self.entities@.len() ==> #[trigger] self.masks()[i] == self.entities@[i].mask@,
    {
    }

    /// Number of registered component types.
    pub open spec fn types(&self) -> nat {
        self.arrays().len()
    }

    /// The component of type `ty` stored for exactly the incarnation `s`.
    pub open spec fn component(&self, ty: int, s: GenerationalIndex) -> Option<V> {
        component_in(self.arrays(), ty, s)
    }

    /// Whether the record of `s` is marked as holding type `t`.
    pub open spec fn has(&self, s: GenerationalIndex, t: int) -> bool {
        flagged(self.mask_at(s.index as int), t)
    }

    /// Whether the record of `s` holds every type in `types`.
    pub open spec fn matches(&self, s: GenerationalIndex, types: Seq<usize>) -> bool {
        forall|j: int| 0 <= j < types.len() ==> #[trigger] self.has(s, types[j] as int)
    }

    /// The live entities that hold every type in `types`, in build order.
    pub open spec fn query(&self, types: Seq<usize>) -> Seq<GenerationalIndex> {
        self.live().filter(self.matcher(types))
    }

    /// `matches` as a predicate on slots.
    pub open spec fn matcher(&self, types: Seq<usize>) -> spec_fn(GenerationalIndex) -> bool {
        |s: GenerationalIndex| self.matches(s, types)
    }

    pub closed spec fn wf(&self) -> bool {
        &&& self.allocator.wf()
        &&& self.entities@.len() == self.allocator.len()
        &&& self.live@.no_duplicates()
        &&& forall|k: int|
            0 <= k < self.live@.len() ==> {
                let s = #[trigger] self.live@[k];
                &&& self.allocator.is_live_slot(s)
                &&& self.entities@[s.index as int].slot == s
                &&& forall|t: int|
                    #![trigger self.components.component(t, s)]
                    flagged(self.entities@[s.index as int].mask@, t) <==> self.components.component(t, s) is Some
            }
        &&& forall|t: int, i: int|
            0 <= t < self.components.types() && 0 <= i < self.components.arrays()[t].len() && (
            #[trigger] self.components.arrays()[t][i]) is Some ==> {
                &&& i < self.allocator.len()
                &&& self.components.arrays()[t][i].unwrap().1 <= self.allocator.generation_at(i)
            }
    }

    pub fn new() -> (r: Self)
        ensures
            r.wf(),
            r.types() == 0,
            r.live() == Seq::<GenerationalIndex>::empty(),
            r.slots().entries_view() == Seq::<(bool, u64)>::empty(),
            r.slots().free_view() == Seq::<usize>::empty(),
            r.masks() == Seq::<Seq<bool>>::empty(),
    {
        let r = World {
            allocator: GenerationalIndexAllocator::new(),
            components: ComponentMap::new(),
            entities: Vec::new(),
            live: Vec::new(),
        };
        assert(r.masks() =~= Seq::<Seq<bool>>::empty());
        r
    }

    /// Registers a new component type and returns its ordinal, the next one
    /// in registration order. Its array starts empty.
    pub fn register(&mut self) -> (r: usize)
        requires
            old(self).wf(),
        ensures
            final(self).wf(),
            r == old(self).types(),
            final(self).types() == old(self).types() + 1,
            final(self).live() == old(self).live(),
            final(self).masks() == old(self).masks(),
            final(self).slots() == old(self).slots(),
            forall|s: GenerationalIndex, t: int| #[trigger] final(self).component(t, s) == if t == r {
                None
            } else {
                old(self).component(t, s)
            },
    {
        let r = self.components.insert(GenerationalIndexArray::new());
        proof {
            assert forall|s: GenerationalIndex, t: int| #[trigger] self.component(t, s) == if t == r {
                None
            } else {
                old(self).component(t, s)
            } by {
                if t == r {
                    assert(self.components.arrays()[t].len() == 0);
                } else if 0 <= t < old(self).types() {
                    assert(self.components.arrays()[t] == old(self).components.arrays()[t]);
                }
            }
            assert forall|t: int, i: int|
                0 <= t < self.components.types() && 0 <= i < self.components.arrays()[t].len() && (
                #[trigger] self.components.arrays()[t][i]) is Some implies {
                    &&& i < self.allocator.len()
                    &&& self.components.arrays()[t][i].unwrap().1 <= self.allocator.generation_at(i)
                } by {
                assert(t != r);
                assert(self.components.arrays()[t] == old(self).components.arrays()[t]);
            }
            assert forall|k: int, t: int| 0 <= k < self.live@.len() implies
                flagged(self.entities@[self.live@[k].index as int].mask@, t)
                    <==> #[trigger] self.components.component(t, self.live@[k]) is Some by {
                let s = self.live@[k];
                assert(old(self).components.component(t, s) == old(self).component(t, s));
                assert(self.components.component(t, s) == self.component(t, s));
            }
        }
        r
    }
}

impl<V> World<V> {
    /// Allocates a slot for a new entity and returns a builder bound to it.
    /// Nothing becomes visible to queries until the builder is built.
    pub fn create_entity(&mut self) -> (b: EntityBuilder<'_, V>)
        requires
            old(self).wf(),
        ensures
            b.wf(),
            old(self).slots().allocates(&b.world.slots(), b.entity),
            b.world.live() == old(self).live(),
            b.world.arrays() == old(self).arrays(),
            b.world.types() == old(self).types(),
            b.world.masks().len() == b.world.slots().len(),
            b.world.masks() == if b.entity.index < old(self).masks().len() {
                old(self).masks().update(b.entity.index as int, Seq::<bool>::empty())
            } else {
                old(self).masks().push(Seq::<bool>::empty())
            },
            forall|t: int| !flagged(b.staged@, t),
            *final(self) == *final(b.world),
    {
        let slot = self.allocator.allocate();
        proof {
            self.lemma_masks();
        }
        let ghost masks0 = self.masks();
        if self.entities.len() <= slot.index {
            self.entities.push(Entity::empty());
        } else {
            self.entities.set(slot.index, Entity::empty());
        }
        proof {
            self.lemma_masks();
            if slot.index < masks0.len() {
                assert(self.masks() =~= masks0.update(slot.index as int, Seq::<bool>::empty()));
            } else {
                assert(self.masks() =~= masks0.push(Seq::<bool>::empty()));
            }
            let a0 = old(self).allocator;
            let a1 = self.allocator;
            assert forall|k: int| 0 <= k < self.live@.len() implies self.live@[k].index != slot.index
                && #[trigger] a1.is_live_slot(self.live@[k]) by {
                let s = self.live@[k];
                assert(a0.is_live_slot(s));
                if a0.free_view().len() > 0 {
                    let j = a0.free_view().len() - 1;
                    assert(a0.free_view()[j] == slot.index);
                }
            }
            assert forall|t: int, i: int|
                0 <= t < self.components.types() && 0 <= i < self.components.arrays()[t].len() && (
                #[trigger] self.components.arrays()[t][i]) is Some implies {
                    &&& i < self.allocator.len()
                    &&& self.components.arrays()[t][i].unwrap().1 <= self.allocator.generation_at(i)
                } by {
                if a0.free_view().len() > 0 {
                    let j = a0.free_view().len() - 1;
                    assert(a0.free_view()[j] == slot.index);
                }
            }
            assert forall|t: int| #[trigger] self.components.component(t, slot) is None by {
                if 0 <= t < self.components.types() && slot.index < self.components.arrays()[t].len() {
                    if a0.free_view().len() > 0 {
                        let j = a0.free_view().len() - 1;
                        assert(a0.free_view()[j] == slot.index);
                    }
                    if self.components.arrays()[t][slot.index as int] is Some {
                        assert(slot.index < a0.len());
                    }
                }
            }
        }
        let staged: Vec<bool> = Vec::new();
        EntityBuilder { world: self, entity: slot, staged }
    }
}

impl<V> World<V> {
    /// The live entities holding every type in `types`, in build order;
    /// fails when one of `types` was never registered.
    pub fn run_query(&self, types: &Vec<usize>) -> (r: Result<Vec<GenerationalIndex>, EcsError>)
        requires
            self.wf(),
        ensures
            match r {
                Ok(v) => {
                    &&& forall|j: int| 0 <= j < types@.len() ==> types@[j] < self.types()
                    &&& v@ == self.query(types@)
                },
                Err(e) => {
                    &&& exists|j: int| 0 <= j < types@.len() && types@[j] >= self.types()
                    &&& e == EcsError::TypeNotRegistered
                },
            },
    {
        let n = self.components.len();
        let mut j: usize = 0;
        while j < types.len()
            invariant
                j <= types@.len(),
                n == self.types(),
                forall|k: int| 0 <= k < j ==> types@[k] < n,
            decreases types@.len() - j,
        {
            if types[j] >= n {
                return Err(EcsError::TypeNotRegistered);
            }
            j = j + 1;
        }
        let ghost pred = self.matcher(types@);
        let mut out: Vec<GenerationalIndex> = Vec::new();
        let mut k: usize = 0;
        while k < self.live.len()
            invariant
                self.wf(),
                k <= self.live@.len(),
                pred == self.matcher(types@),
                out@ == self.live@.subrange(0, k as int).filter(pred),
            decreases self.live@.len() - k,
        {
            let s = self.live[k];
            let record = &self.entities[s.index];
            let mut all = true;
            let mut j: usize = 0;
            while j < types.len()
                invariant
                    self.wf(),
                    k < self.live@.len(),
                    s == self.live@[k as int],
                    *record == self.entities@[s.index as int],
                    j <= types@.len(),
                    all == forall|i: int| 0 <= i < j ==> #[trigger] self.has(s, types@[i] as int),
                decreases types@.len() - j,
            {
                proof {
                    self.lemma_masks();
                    assert(self.allocator.is_live_slot(self.live@[k as int]));
                    assert(self.has(s, types@[j as int] as int) == record.holds(types@[j as int] as int));
                }
                if !record.has(types[j]) {
                    all = false;
                }
                j = j + 1;
            }
            proof {
                let sub = self.live@.subrange(0, k as int + 1);
                assert(sub.drop_last() =~= self.live@.subrange(0, k as int));
                assert(sub.last() == s);
                reveal(Seq::filter);
                assert(pred(s) == self.matches(s, types@));
                assert(all == self.matches(s, types@));
                assert(all == pred(s));
            }
            if all {
                out.push(s);
            }
            k = k + 1;
        }
        proof {
            assert(self.live@.subrange(0, self.live@.len() as int) =~= self.live@);
        }
        Ok(out)
    }
}

impl<V> World<V> {
    /// `post` has the same slots, records, live list and types as `self`.
    pub open spec fn same_entities(&self, post: &Self) -> bool {
        &&& post.slots() == self.slots()
        &&& post.live() == self.live()
        &&& post.masks() == self.masks()
        &&& post.types() == self.types()
    }

    /// Rewriting a present component keeps the registry well formed.
    proof fn lemma_rewrite_wf(w0: Self, w1: Self, ty: int, entity: GenerationalIndex, x: V)
        requires
            w0.wf(),
            w0.component(ty, entity) is Some,
            w1.allocator.entries_view() == w0.allocator.entries_view(),
            w1.allocator.free_view() == w0.allocator.free_view(),
            w1.entities@ == w0.entities@,
            w1.live@ == w0.live@,
            w1.components.arrays() == write_component(w0.components.arrays(), ty, entity, x),
        ensures
            w1.wf(),
    {
        let m0 = w0.components.arrays();
        let m1 = w1.components.arrays();
        lemma_lookup_stored(m0[ty], entity);
        lemma_stored_in_range(m0[ty], entity);
        assert forall|t: int, q: GenerationalIndex| #[trigger] w1.components.component(t, q) is Some
            == w0.components.component(t, q) is Some by {
            if t != ty && 0 <= t < m0.len() {
                assert(m1[t] == m0[t]);
            }
        }
        assert forall|t: int, i: int|
            0 <= t < m1.len() && 0 <= i < m1[t].len() && (#[trigger] m1[t][i]) is Some implies {
                &&& i < w1.allocator.len()
                &&& m1[t][i].unwrap().1 <= w1.allocator.generation_at(i)
            } by {
            if t != ty {
                assert(m1[t] == m0[t]);
            } else if i != entity.index {
                assert(m1[t][i] == m0[t][i]);
            } else {
                assert(m0[t][i] is Some);
            }
        }
    }

    /// Well-formedness depends on the views alone.
    proof fn lemma_views_wf(w0: Self)
        requires
            w0.wf(),
        ensures
            forall|w1: Self|
                #![trigger w1.wf()]
                w1.allocator.entries_view() == w0.allocator.entries_view()
                    && w1.allocator.free_view() == w0.allocator.free_view() && w1.entities@
                    == w0.entities@ && w1.live@ == w0.live@ && w1.components.arrays()
                    == w0.components.arrays() ==> w1.wf(),
    {
        assert forall|w1: Self|
            #![trigger w1.wf()]
            w1.allocator.entries_view() == w0.allocator.entries_view()
                && w1.allocator.free_view() == w0.allocator.free_view() && w1.entities@
                == w0.entities@ && w1.live@ == w0.live@ && w1.components.arrays()
                == w0.components.arrays() implies w1.wf() by {
            assert forall|t: int, q: GenerationalIndex| #[trigger] w1.components.component(t, q)
                == w0.components.component(t, q) by {}
            assert forall|k: int| 0 <= k < w1.live@.len() implies {
                let s = #[trigger] w1.live@[k];
                &&& w1.allocator.is_live_slot(s)
                &&& w1.entities@[s.index as int].slot == s
                &&& forall|t: int|
                    #![trigger w1.components.component(t, s)]
                    flagged(w1.entities@[s.index as int].mask@, t) <==> w1.components.component(t, s) is Some
            } by {
                assert(w0.live@[k] == w1.live@[k]);
            }
        }
    }

    /// `lemma_rewrite_wf` for every rewritten registry and value.
    proof fn lemma_rewrites_wf(w0: Self, ty: int, entity: GenerationalIndex)
        requires
            w0.wf(),
            w0.component(ty, entity) is Some,
        ensures
            forall|w1: Self, x: V|
                #![trigger w1.wf(), write_component(w0.components.arrays(), ty, entity, x)]
                w1.allocator.entries_view() == w0.allocator.entries_view()
                    && w1.allocator.free_view() == w0.allocator.free_view() && w1.entities@
                    == w0.entities@ && w1.live@ == w0.live@ && w1.components.arrays() == write_component(w0.components.arrays(), ty, entity, x)
                    ==> w1.wf(),
    {
        assert forall|w1: Self, x: V|
            #![trigger w1.wf(), write_component(w0.components.arrays(), ty, entity, x)]
            w1.allocator.entries_view() == w0.allocator.entries_view()
                && w1.allocator.free_view() == w0.allocator.free_view() && w1.entities@
                == w0.entities@ && w1.live@ == w0.live@ && w1.components.arrays() == write_component(w0.components.arrays(), ty, entity, x)
                implies w1.wf() by {
            Self::lemma_rewrite_wf(w0, w1, ty, entity, x);
        }
    }

    /// Rewriting two present components of one incarnation keeps the
    /// registry well formed.
    proof fn lemma_rewrite2_wf(
        w0: Self,
        w1: Self,
        a: int,
        b: int,
        entity: GenerationalIndex,
        x: V,
        y: V,
    )
        requires
            w0.wf(),
            a != b,
            w0.component(a, entity) is Some,
            w0.component(b, entity) is Some,
            w1.allocator.entries_view() == w0.allocator.entries_view(),
            w1.allocator.free_view() == w0.allocator.free_view(),
            w1.entities@ == w0.entities@,
            w1.live@ == w0.live@,
            w1.components.arrays() == write_component(
                write_component(w0.components.arrays(), a, entity, x),
                b,
                entity,
                y,
            ),
        ensures
            w1.wf(),
    {
        let m0 = w0.components.arrays();
        let mid = write_component(m0, a, entity, x);
        let m1 = w1.components.arrays();
        lemma_lookup_stored(m0[a], entity);
        lemma_stored_in_range(m0[a], entity);
        lemma_lookup_stored(m0[b], entity);
        lemma_stored_in_range(m0[b], entity);
        assert(mid[b] == m0[b]);
        assert forall|t: int, q: GenerationalIndex| #[trigger] w1.components.component(t, q) is Some
            == w0.components.component(t, q) is Some by {
            if t != a && t != b && 0 <= t < m0.len() {
                assert(m1[t] == m0[t]);
            }
            if t == a {
                assert(m1[t] == mid[a]);
            }
        }
        assert forall|t: int, i: int|
            0 <= t < m1.len() && 0 <= i < m1[t].len() && (#[trigger] m1[t][i]) is Some implies {
                &&& i < w1.allocator.len()
                &&& m1[t][i].unwrap().1 <= w1.allocator.generation_at(i)
            } by {
            if t != a && t != b {
                assert(m1[t] == m0[t]);
            } else if t == a {
                assert(m1[t] == mid[a]);
                if i != entity.index {
                    assert(m1[t][i] == m0[t][i]);
                } else {
                    assert(m0[t][i] is Some);
                }
            } else if i != entity.index {
                assert(m1[t][i] == m0[t][i]);
            } else {
                assert(m0[t][i] is Some);
            }
        }
    }

    /// `lemma_rewrite2_wf` for every rewritten registry and pair of values.
    proof fn lemma_rewrites2_wf(w0: Self, a: int, b: int, entity: GenerationalIndex)
        requires
            w0.wf(),
            a != b,
            w0.component(a, entity) is Some,
            w0.component(b, entity) is Some,
        ensures
            forall|w1: Self, x: V, y: V|
                #![trigger w1.wf(), write_component(write_component(w0.components.arrays(), a, entity, x), b, entity, y)]
                w1.allocator.entries_view() == w0.allocator.entries_view()
                    && w1.allocator.free_view() == w0.allocator.free_view() && w1.entities@
                    == w0.entities@ && w1.live@ == w0.live@ && w1.components.arrays()
                    == write_component(write_component(w0.components.arrays(), a, entity, x), b, entity, y)
                    ==> w1.wf(),
    {
        assert forall|w1: Self, x: V, y: V|
            #![trigger w1.wf(), write_component(write_component(w0.components.arrays(), a, entity, x), b, entity, y)]
            w1.allocator.entries_view() == w0.allocator.entries_view()
                && w1.allocator.free_view() == w0.allocator.free_view() && w1.entities@
                == w0.entities@ && w1.live@ == w0.live@ && w1.components.arrays()
                == write_component(write_component(w0.components.arrays(), a, entity, x), b, entity, y)
                implies w1.wf() by {
            Self::lemma_rewrite2_wf(w0, w1, a, b, entity, x, y);
        }
    }

    /// Mutable access to the components of two different types `a` and `b`
    /// of `entity` at once; absent when `entity` is stale or lacks either.
    /// Each reference reaches only its own type's array, so a write through
    /// one never changes what the other reads.
    pub fn join_mut(&mut self, a: usize, b: usize, entity: GenerationalIndex) -> (r: Option<(&mut V, &mut V)>)
        requires
            old(self).wf(),
            a != b,
        ensures
            final(self).wf(),
            old(self).same_entities(&*final(self)),
            match r {
                Some((x, y)) => {
                    &&& old(self).read(a as int, entity) == Some(*x)
                    &&& old(self).read(b as int, entity) == Some(*y)
                    &&& final(self).arrays() == write_component(
                        write_component(old(self).arrays(), a as int, entity, *final(x)),
                        b as int,
                        entity,
                        *final(y),
                    )
                },
                None => {
                    &&& (old(self).read(a as int, entity) is None || old(self).read(b as int, entity) is None)
                    &&& final(self).arrays() == old(self).arrays()
                },
            },
    {
        if !self.allocator.is_current(entity) {
            return None;
        }
        let ghost w0 = *self;
        proof {
            Self::lemma_views_wf(w0);
        }
        let r = join(&mut self.components, a, b, entity);
        proof {
            if r is Some {
                Self::lemma_rewrites2_wf(w0, a as int, b as int, entity);
                let ghost written = write_component(
                    write_component(w0.components.arrays(), a as int, entity, *final(r.unwrap().0)),
                    b as int,
                    entity,
                    *final(r.unwrap().1),
                );
            }
        }
        r
    }

    /// What a read of type `ty` through `entity` yields: the stored
    /// component while `entity` is the live incarnation of its slot,
    /// nothing once it is stale.
    pub open spec fn read(&self, ty: int, entity: GenerationalIndex) -> Option<V> {
        if self.slots().is_live_slot(entity) {
            self.component(ty, entity)
        } else {
            None
        }
    }

    /// The component of type `ty` of `entity`; absent when `entity` is
    /// stale or holds no such component.
    pub fn get(&self, ty: usize, entity: GenerationalIndex) -> (r: Option<&V>)
        ensures
            match r {
                Some(v) => self.read(ty as int, entity) == Some(*v),
                None => self.read(ty as int, entity) is None,
            },
    {
        if !self.allocator.is_current(entity) {
            return None;
        }
        match self.components.get(ty) {
            Ok(array) => array.get(entity),
            Err(_) => None,
        }
    }

    /// Mutable access to the component of type `ty` of `entity`; absent
    /// when `entity` is stale or holds no such component. What is written
    /// through it is stored for that incarnation.
    pub fn get_mut(&mut self, ty: usize, entity: GenerationalIndex) -> (r: Option<&mut V>)
        requires
            old(self).wf(),
        ensures
            final(self).wf(),
            old(self).same_entities(&*final(self)),
            match r {
                Some(m) => {
                    &&& old(self).read(ty as int, entity) == Some(*m)
                    &&& final(self).arrays() == write_component(
                        old(self).arrays(),
                        ty as int,
                        entity,
                        *final(m),
                    )
                },
                None => {
                    &&& old(self).read(ty as int, entity) is None
                    &&& final(self).arrays() == old(self).arrays()
                },
            },
    {
        if !self.allocator.is_current(entity) {
            return None;
        }
        let ghost w0 = *self;
        proof {
            Self::lemma_views_wf(w0);
        }
        match self.components.get_mut(ty) {
            Ok(array) => {
                let r = array.get_mut(entity);
                proof {
                    lemma_lookup_stored(w0.arrays()[ty as int], entity);
                    assert(w0.components.arrays().update(ty as int, w0.components.arrays()[ty as int])
                        =~= w0.components.arrays());
                    if r is Some {
                        lemma_stored_in_range(w0.arrays()[ty as int], entity);
                        Self::lemma_rewrites_wf(w0, ty as int, entity);
                        let ghost written = write_component(
                            w0.components.arrays(),
                            ty as int,
                            entity,
                            *final(r.unwrap()),
                        );
                    }
                }
                r
            },
            Err(_) => None,
        }
    }
}

impl<V> World<V> {
    /// Sets the component of type `ty` of the built entity `entity` to
    /// `value`, adding the type to its mask if it lacked it. Fails, changing
    /// nothing, when `ty` was never registered or `entity` is not a live
    /// built entity.
    pub fn insert_component(&mut self, ty: usize, entity: GenerationalIndex, value: V) -> (r: Result<(), EcsError>)
        requires
            old(self).wf(),
        ensures
            final(self).wf(),
            final(self).slots() == old(self).slots(),
            final(self).live() == old(self).live(),
            final(self).types() == old(self).types(),
            ty >= old(self).types() ==> r == Err::<(), EcsError>(EcsError::TypeNotRegistered),
            ty < old(self).types() && !old(self).live().contains(entity) ==> r == Err::<(), EcsError>(
                EcsError::NoSuchEntity,
            ),
            r is Err ==> final(self).arrays() == old(self).arrays() && final(self).masks() == old(self).masks(),
            r is Ok ==> {
                &&& ty < old(self).types()
                &&& old(self).live().contains(entity)
                &&& final(self).arrays() == write_component(old(self).arrays(), ty as int, entity, value)
                &&& forall|i: int| 0 <= i < old(self).masks().len() && i != entity.index
                    ==> #[trigger] final(self).masks()[i] == old(self).masks()[i]
                &&& forall|t: int| #[trigger] final(self).has(entity, t) == (old(self).has(entity, t) || t == ty)
            },
    {
        if ty >= self.components.len() {
            return Err(EcsError::TypeNotRegistered);
        }
        let mut k: usize = 0;
        while k < self.live.len() && self.live[k] != entity
            invariant
                k <= self.live@.len(),
                forall|j: int| 0 <= j < k ==> self.live@[j] != entity,
            decreases self.live@.len() - k,
        {
            k = k + 1;
        }
        if k == self.live.len() {
            proof {
                assert(!self.live@.contains(entity));
            }
            return Err(EcsError::NoSuchEntity);
        }
        let ghost w0 = *self;
        proof {
            assert(self.live@[k as int] == entity);
            assert(self.live@.contains(entity));
            assert(self.allocator.is_live_slot(entity));
            self.lemma_masks();
        }
        match self.components.get_mut(ty) {
            Ok(array) => {
                array.set(entity, value);
            },
            Err(_) => {},
        }
        let mut mask = Vec::new();
        std::mem::swap(&mut mask, &mut self.entities[entity.index].mask);
        raise_flag(&mut mask, ty);
        self.entities.set(entity.index, Entity { slot: entity, mask });
        proof {
            self.lemma_masks();
            let m0 = w0.components.arrays();
            let m1 = self.components.arrays();
            lemma_lookup_stored(m0[ty as int], entity);
            assert forall|t: int, q: GenerationalIndex| #[trigger]
                self.components.component(t, q) == if t == ty && q.index == entity.index {
                    if q.generation == entity.generation {
                        Some(value)
                    } else {
                        None
                    }
                } else {
                    w0.components.component(t, q)
                } by {
                if t != ty && 0 <= t < m0.len() {
                    assert(m1[t] == m0[t]);
                }
            }
            assert forall|t: int, i: int|
                0 <= t < m1.len() && 0 <= i < m1[t].len() && (#[trigger] m1[t][i]) is Some implies {
                    &&& i < self.allocator.len()
                    &&& m1[t][i].unwrap().1 <= self.allocator.generation_at(i)
                } by {
                if t != ty {
                    assert(m1[t] == m0[t]);
                } else if i != entity.index {
                    assert(m1[t][i] == m0[t][i]);
                }
            }
            assert forall|j: int| 0 <= j < self.live@.len() implies {
                let s = #[trigger] self.live@[j];
                &&& self.allocator.is_live_slot(s)
                &&& self.entities@[s.index as int].slot == s
                &&& forall|t: int|
                    #![trigger self.components.component(t, s)]
                    flagged(self.entities@[s.index as int].mask@, t) <==> self.components.component(t, s) is Some
            } by {
                let s = self.live@[j];
                assert(w0.live@[j] == s);
                if s.index == entity.index {
                    assert(w0.slots().is_live_slot(s));
                    assert(s == entity);
                    assert forall|t: int|
                        #![trigger self.components.component(t, s)]
                        flagged(self.entities@[s.index as int].mask@, t) <==> self.components.component(t, s) is Some by {
                        assert(w0.components.component(t, s) == w0.component(t, s));
                    }
                }
            }
        }
        Ok(())
    }

    /// Tears down the built entity `entity`: its slot is freed, its record's
    /// mask cleared and it leaves the live list. Its components stay in the
    /// arrays but belong to a dead incarnation. A slot that is not a live
    /// built entity (stale, destroyed, never built) changes nothing.
    pub fn destroy_entity(&mut self, entity: GenerationalIndex) -> (r: bool)
        requires
            old(self).wf(),
        ensures
            final(self).wf(),
            r == old(self).live().contains(entity),
            final(self).arrays() == old(self).arrays(),
            final(self).types() == old(self).types(),
            r ==> {
                &&& final(self).live() == old(self).live().remove(
                    old(self).live().index_of(entity),
                )
                &&& final(self).masks() == old(self).masks().update(
                    entity.index as int,
                    Seq::<bool>::empty(),
                )
                &&& final(self).slots().entries_view() == old(self).slots().entries_view().update(
                    entity.index as int,
                    (false, entity.generation),
                )
                &&& !final(self).slots().live_at(entity.index as int)
            },
            !r ==> old(self).same_entities(&*final(self)),
    {
        let mut k: usize = 0;
        while k < self.live.len() && self.live[k] != entity
            invariant
                k <= self.live@.len(),
                forall|j: int| 0 <= j < k ==> self.live@[j] != entity,
            decreases self.live@.len() - k,
        {
            k = k + 1;
        }
        if k == self.live.len() {
            proof {
                assert(!self.live@.contains(entity));
            }
            return false;
        }
        proof {
            assert(self.live@[k as int] == entity);
            assert(self.live@.contains(entity));
            self.live@.index_of_first_ensures(entity);
            assert(self.live@.index_of(entity) == k) by {
                let i = self.live@.index_of(entity);
                assert(self.live@[i] == entity);
                assert(self.live@.no_duplicates());
            }
            self.lemma_masks();
        }
        let ghost w0 = *self;
        self.live.remove(k);
        self.allocator.deallocate(entity);
        self.entities.set(entity.index, Entity { slot: entity, mask: Vec::new() });
        proof {
            self.lemma_masks();
            assert(self.masks() =~= w0.masks().update(entity.index as int, Seq::<bool>::empty()));
            assert(self.allocator.entries_view() =~= w0.allocator.entries_view().update(
                entity.index as int,
                (false, entity.generation),
            ));
            assert forall|i: int, j: int| 0 <= i < j < self.live@.len() implies self.live@[i] != self.live@[j] by {
                let i0 = if i < k { i } else { i + 1 };
                let j0 = if j < k { j } else { j + 1 };
                assert(self.live@[i] == w0.live@[i0]);
                assert(self.live@[j] == w0.live@[j0]);
            }
            assert forall|j: int| 0 <= j < self.live@.len() implies {
                let s = #[trigger] self.live@[j];
                &&& self.allocator.is_live_slot(s)
                &&& self.entities@[s.index as int].slot == s
                &&& forall|t: int|
                    #![trigger self.components.component(t, s)]
                    flagged(self.entities@[s.index as int].mask@, t) <==> self.components.component(t, s) is Some
            } by {
                let j0 = if j < k { j } else { j + 1 };
                let s = self.live@[j];
                assert(s == w0.live@[j0]);
                assert(w0.allocator.is_live_slot(s));
                assert(s != entity);
                assert(s.index != entity.index);
            }
        }
        true
    }
}

/// A stale slot reads nothing: once its index carries a different live
/// incarnation (as after destroying it and allocating again), every read
/// through the old slot is absent, never the new incarnation's data.
pub proof fn lemma_stale_read<V>(
    w: &World<V>,
    stale: GenerationalIndex,
    current: GenerationalIndex,
    ty: int,
)
    requires
        w.slots().is_live_slot(current),
        current.index == stale.index,
        current.generation != stale.generation,
    ensures
        w.read(ty, stale) is None,
{
}

/// After storing `x` for `e` in the array of type `ty`, a read of that
/// type through `e` yields `x` and every other read is unchanged.
pub proof fn lemma_read_written<V>(w0: &World<V>, w1: &World<V>, ty: int, e: GenerationalIndex, x: V)
    requires
        w0.same_entities(w1),
        w0.read(ty, e) is Some,
        w1.arrays() == write_component(w0.arrays(), ty, e, x),
    ensures
        forall|t: int, q: GenerationalIndex| #[trigger]
            w1.read(t, q) == if t == ty && q == e {
                Some(x)
            } else {
                w0.read(t, q)
            },
{
    lemma_lookup_stored(w0.arrays()[ty], e);
    assert forall|t: int, q: GenerationalIndex| #[trigger]
        w1.read(t, q) == if t == ty && q == e {
            Some(x)
        } else {
            w0.read(t, q)
        } by {
        if t != ty && 0 <= t < w0.arrays().len() {
            assert(w1.arrays()[t] == w0.arrays()[t]);
        }
        if t == ty && q.index == e.index && q != e && w0.slots().is_live_slot(q) {
            assert(w0.slots().is_live_slot(e));
        }
    }
}

/// Writes through the two references of a `join_mut` do not disturb each
/// other: afterwards each type reads back exactly what was written to it
/// through `e`, and every other read is unchanged.
pub proof fn lemma_join_disjoint<V>(
    w0: &World<V>,
    w1: &World<V>,
    a: int,
    b: int,
    e: GenerationalIndex,
    x: V,
    y: V,
)
    requires
        a != b,
        w0.same_entities(w1),
        w0.read(a, e) is Some,
        w0.read(b, e) is Some,
        w1.arrays() == write_component(write_component(w0.arrays(), a, e, x), b, e, y),
    ensures
        forall|t: int, q: GenerationalIndex| #[trigger]
            w1.read(t, q) == if q == e && t == a {
                Some(x)
            } else if q == e && t == b {
                Some(y)
            } else {
                w0.read(t, q)
            },
{
    let m0 = w0.arrays();
    let mid = write_component(m0, a, e, x);
    lemma_lookup_stored(m0[a], e);
    lemma_lookup_stored(m0[b], e);
    assert(mid[b] == m0[b]);
    assert(w1.arrays()[a] == mid[a]);
    assert forall|t: int, q: GenerationalIndex| #[trigger]
        w1.read(t, q) == if q == e && t == a {
            Some(x)
        } else if q == e && t == b {
            Some(y)
        } else {
            w0.read(t, q)
        } by {
        if t != a && t != b && 0 <= t < m0.len() {
            assert(w1.arrays()[t] == m0[t]);
        }
        if q.index == e.index && q != e && w0.slots().is_live_slot(q) {
            assert(w0.slots().is_live_slot(e));
        }
    }
}

/// Writing back the value a read yields leaves the arrays as they were.
pub proof fn lemma_write_back<V>(w: &World<V>, ty: int, e: GenerationalIndex, x: V)
    requires
        w.read(ty, e) == Some(x),
    ensures
        write_component(w.arrays(), ty, e, x) == w.arrays(),
{
    let m = w.arrays();
    assert(stored_at(m[ty], e, x) =~= m[ty]);
    assert(write_component(m, ty, e, x) =~= m);
}

/// A built entity matches a query for a single type exactly when its mask
/// holds that type, and its mask holds exactly the types stored for it.
pub proof fn lemma_mask_fidelity<V>(w: &World<V>, entity: GenerationalIndex, t: usize)
    requires
        w.wf(),
        w.live().contains(entity),
    ensures
        w.query(seq![t]).contains(entity) <==> w.has(entity, t as int),
        w.has(entity, t as int) <==> w.component(t as int, entity) is Some,
{
    broadcast use vstd::seq_lib::group_filter_ensures;

    assert(w.matches(entity, seq![t]) <==> w.has(entity, t as int)) by {
        if w.has(entity, t as int) {
            assert forall|j: int| 0 <= j < 1 implies #[trigger] w.has(entity, seq![t][j] as int) by {
                assert(seq![t][j] == t);
            }
        }
        if w.matches(entity, seq![t]) {
            assert(w.has(entity, seq![t][0] as int));
        }
    }
    let k = choose|k: int| 0 <= k < w.live@.len() && w.live@[k] == entity;
    assert(w.live@[k] == entity);
    w.lemma_masks();
    assert(w.components.component(t as int, entity) == w.component(t as int, entity));
}

/// The entities handed to a system for one pass: the live entities holding
/// every type the system joins over, in build order.
pub struct Entities {
    pub entities: Vec<GenerationalIndex>,
}

/// Per-tick logic run over the entities that hold a set of component types.
/// A system changes component values only: the registry's types, records,
/// live list and slots stay as they were.
pub trait System<V> {
    /// What one pass of the system over `entities` does: `self` becomes
    /// `post` and the registry goes from `pre` to `post_world`.
    spec fn updated(
        &self,
        post: &Self,
        entities: Seq<GenerationalIndex>,
        pre: World<V>,
        post_world: World<V>,
    ) -> bool;

    fn update(&mut self, entities: &Entities, world: &mut World<V>)
        requires
            old(world).wf(),
            entities.entities@.no_duplicates(),
        ensures
            final(world).wf(),
            old(world).same_entities(&*final(world)),
            old(self).updated(&*final(self), entities.entities@, *old(world), *final(world)),
    ;
}

/// Filtering keeps a sequence free of duplicates.
proof fn lemma_filter_no_duplicates<A>(s: Seq<A>, p: spec_fn(A) -> bool)
    requires
        s.no_duplicates(),
    ensures
        s.filter(p).no_duplicates(),
    decreases s.len(),
{
    broadcast use vstd::seq_lib::group_filter_ensures;

    reveal(Seq::filter);
    if s.len() > 0 {
        let d = s.drop_last();
        assert(d.no_duplicates()) by {
            assert forall|i: int, j: int| 0 <= i < j < d.len() implies d[i] != d[j] by {
                assert(d[i] == s[i] && d[j] == s[j]);
            }
        }
        lemma_filter_no_duplicates(d, p);
        if p(s.last()) {
            let f = d.filter(p);
            assert(!f.contains(s.last())) by {
                if f.contains(s.last()) {
                    d.lemma_filter_contains_rev(p, s.last());
                    let i = choose|i: int| 0 <= i < d.len() && d[i] == s.last();
                    assert(s[i] == s[s.len() - 1]);
                }
            }
            assert forall|i: int, j: int| 0 <= i < j < f.push(s.last()).len() implies f.push(s.last())[i]
                != f.push(s.last())[j] by {
                if j == f.len() {
                    assert(f.contains(f[i]));
                }
            }
        }
    }
}

/// A query yields each entity at most once.
pub proof fn lemma_query_no_duplicates<V>(w: &World<V>, types: Seq<usize>)
    requires
        w.wf(),
    ensures
        w.query(types).no_duplicates(),
{
    lemma_filter_no_duplicates(w.live(), w.matcher(types));
}

impl<V> World<V> {
    /// Runs `system` once over the live entities holding every type in
    /// `components`, in build order; fails, running nothing, when one of
    /// `components` was never registered.
    pub fn run_system<S: System<V>>(&mut self, system: &mut S, components: &Vec<usize>) -> (r:
        Result<(), EcsError>)
        requires
            old(self).wf(),
        ensures
            final(self).wf(),
            r is Err <==> exists|j: int|
                0 <= j < components@.len() && components@[j] >= old(self).types(),
            old(self).same_entities(&*final(self)),
            r is Ok ==> old(system).updated(
                &*final(system),
                old(self).query(components@),
                *old(self),
                *final(self),
            ),
            r is Err ==> r == Err::<(), EcsError>(EcsError::TypeNotRegistered)
                && final(self).arrays() == old(self).arrays() && *final(system) == *old(system),
    {
        match self.run_query(components) {
            Ok(entities) => {
                proof {
                    lemma_query_no_duplicates(&*self, components@);
                }
                let batch = Entities { entities };
                system.update(&batch, self);
                Ok(())
            },
            Err(e) => Err(e),
        }
    }
}

/// Stages components for one freshly allocated entity. Components are
/// written as they are staged, but the entity becomes visible to queries
/// only through `build`; a builder dropped before that leaves no entity.
pub struct EntityBuilder<'a, V> {
    pub world: &'a mut World<V>,
    pub entity: GenerationalIndex,
    pub staged: Vec<bool>,
}

impl<'a, V> EntityBuilder<'a, V> {
    /// The staged flags mark exactly the types stored for the builder's slot,
    /// which is live in the allocator and not yet in the live list.
    pub open spec fn wf(&self) -> bool {
        &&& self.world.wf()
        &&& self.world.slots().is_live_slot(self.entity)
        &&& forall|k: int|
            0 <= k < self.world.live().len() ==> #[trigger] self.world.live()[k].index
                != self.entity.index
        &&& forall|t: int|
            #![trigger self.world.component(t, self.entity)]
            flagged(self.staged@, t) <==> self.world.component(t, self.entity) is Some
    }

    /// Stores `value` as the builder's component of type `ty`; fails,
    /// changing nothing, when `ty` was never registered.
    pub fn with(&mut self, ty: usize, value: V) -> (r: Result<(), EcsError>)
        requires
            old(self).wf(),
        ensures
            final(self).wf(),
            final(self).entity == old(self).entity,
            *final(final(self).world) == *final(old(self).world),
            final(self).world.live() == old(self).world.live(),
            final(self).world.masks() == old(self).world.masks(),
            final(self).world.slots() == old(self).world.slots(),
            final(self).world.types() == old(self).world.types(),
            ty < old(self).world.types() ==> {
                &&& r is Ok
                &&& final(self).world.arrays() == write_component(
                    old(self).world.arrays(),
                    ty as int,
                    old(self).entity,
                    value,
                )
                &&& forall|t: int|
                    flagged(final(self).staged@, t) == (flagged(old(self).staged@, t) || t == ty)
            },
            ty >= old(self).world.types() ==> {
                &&& r == Err::<(), EcsError>(EcsError::ComponentTypeUnregistered)
                &&& final(self).world.arrays() == old(self).world.arrays()
                &&& final(self).staged@ == old(self).staged@
            },
    {
        let n = self.world.components.len();
        if ty >= n {
            return Err(EcsError::ComponentTypeUnregistered);
        }
        let entity = self.entity;
        let ghost w0 = *self.world;
        match self.world.components.get_mut(ty) {
            Ok(array) => {
                array.set(entity, value);
            },
            Err(_) => {},
        }
        raise_flag(&mut self.staged, ty);
        proof {
            let m0 = w0.components.arrays();
            let m1 = self.world.components.arrays();
            lemma_lookup_stored(m0[ty as int], entity);
            assert forall|t: int, q: GenerationalIndex| #[trigger]
                self.world.components.component(t, q) == if t == ty && q.index == entity.index {
                    if q.generation == entity.generation {
                        Some(value)
                    } else {
                        None
                    }
                } else {
                    w0.components.component(t, q)
                } by {
                if t != ty && 0 <= t < m0.len() {
                    assert(m1[t] == m0[t]);
                }
            }
            assert forall|t: int, i: int|
                0 <= t < m1.len() && 0 <= i < m1[t].len() && (#[trigger] m1[t][i]) is Some implies {
                    &&& i < self.world.allocator.len()
                    &&& m1[t][i].unwrap().1 <= self.world.allocator.generation_at(i)
                } by {
                if t != ty {
                    assert(m1[t] == m0[t]);
                } else if i != entity.index {
                    assert(m1[t][i] == m0[t][i]);
                }
            }
            assert(self.world.allocator.wf());
            assert(self.world.live@.no_duplicates());
            assert forall|k: int| 0 <= k < self.world.live@.len() implies {
                let s = #[trigger] self.world.live@[k];
                &&& self.world.allocator.is_live_slot(s)
                &&& self.world.entities@[s.index as int].slot == s
                &&& forall|t: int|
                    #![trigger self.world.components.component(t, s)]
                    flagged(self.world.entities@[s.index as int].mask@, t) <==> self.world.components.component(t, s) is Some
            } by {
                let s = self.world.live@[k];
                assert(w0.live@[k] == s);
                assert(old(self).world.live()[k].index != entity.index);
            }
            assert(self.world.wf());
            assert forall|t: int|
                #![trigger self.world.component(t, self.entity)]
                flagged(self.staged@, t) <==> self.world.component(t, self.entity) is Some by {
                assert(w0.component(t, entity) == w0.components.component(t, entity));
            }
            assert(self.world.slots().is_live_slot(self.entity));
            assert(self.world.live() == old(self).world.live());
            assert forall|k: int|
                0 <= k < self.world.live().len() implies #[trigger] self.world.live()[k].index
                    != self.entity.index by {
                assert(old(self).world.live()[k].index != entity.index);
            }
        }
        Ok(())
    }

    /// Commits the entity: its record takes the slot and exactly the staged
    /// types, and it joins the end of the live list, visible to queries.
    pub fn build(self)
        requires
            self.wf(),
        ensures
            final(self.world).wf(),
            final(self.world).live() == old(self.world).live().push(self.entity),
            final(self.world).masks() == old(self.world).masks().update(
                self.entity.index as int,
                self.staged@,
            ),
            final(self.world).arrays() == old(self.world).arrays(),
            final(self.world).types() == old(self.world).types(),
            final(self.world).slots() == old(self.world).slots(),
            forall|t: int| #[trigger] final(self.world).has(self.entity, t) == flagged(self.staged@, t),
    {
        let EntityBuilder { world, entity, staged } = self;
        let ghost w0 = *world;
        proof {
            w0.lemma_masks();
        }
        world.entities.set(entity.index, Entity { slot: entity, mask: staged });
        world.live.push(entity);
        proof {
            world.lemma_masks();
            assert(world.masks() =~= w0.masks().update(entity.index as int, staged@));
            assert forall|k: int| 0 <= k < world.live@.len() implies {
                let s = #[trigger] world.live@[k];
                &&& world.allocator.is_live_slot(s)
                &&& world.entities@[s.index as int].slot == s
                &&& forall|t: int|
                    #![trigger world.components.component(t, s)]
                    flagged(world.entities@[s.index as int].mask@, t) <==> world.components.component(t, s) is Some
            } by {
                if k < w0.live@.len() {
                    assert(w0.live()[k].index != entity.index);
                    assert(w0.live@[k] == world.live@[k]);
                } else {
                    assert forall|t: int|
                        #![trigger world.components.component(t, entity)]
                        flagged(world.entities@[entity.index as int].mask@, t) <==> world.components.component(t, entity) is Some by {
                        assert(w0.component(t, entity) == w0.components.component(t, entity));
                    }
                }
            }
            assert forall|i: int, j: int| 0 <= i < j < world.live@.len() implies world.live@[i] != world.live@[j] by {
                if j == w0.live@.len() {
                    assert(w0.live()[i].index != entity.index);
                }
            }
        }
    }
}

} // verus!

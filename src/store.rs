//! The component store: one generational array per registered component
//! type, keyed by the type's ordinal.

use vstd::prelude::*;
use crate::array::{GenerationalIndexArray, lemma_lookup_stored, lemma_stored_in_range, lookup_in, stored_at};
use crate::slot::GenerationalIndex;

verus! {

/// Failures of the entity/component store.
#[derive(Clone, Copy, Debug, PartialEq, Eq, Structural)]
pub enum EcsError {
    /// A lookup or query named a component type ordinal that was never
    /// registered.
    TypeNotRegistered,
    /// A builder was handed a component of a type that was never
    /// registered.
    ComponentTypeUnregistered,
    /// The slot is not a live built entity (stale, destroyed or unbuilt).
    NoSuchEntity,
}

/// The component of type `ty` stored for exactly the incarnation `s` in
/// the arrays `m`.
pub open spec fn component_in<V>(m: Seq<Seq<Option<(V, u64)>>>, ty: int, s: GenerationalIndex) -> Option<V> {
    if 0 <= ty < m.len() {
        lookup_in(m[ty], s)
    } else {
        None
    }
}

/// Component arrays keyed by component-type ordinal: the array of the
/// type registered `k`-th sits at key `k`.
pub struct ComponentMap<V>(Vec<GenerationalIndexArray<V>>);

impl<V> ComponentMap<V> {
    /// The contents of every array, by type ordinal.
    pub closed spec fn arrays(&self) -> Seq<Seq<Option<(V, u64)>>> {
        self.0@.map_values(|a: GenerationalIndexArray<V>| a.entries())
    }

    /// Number of registered types.
    pub open spec fn types(&self) -> nat {
        self.arrays().len()
    }

    /// The component of type `ty` stored for exactly the incarnation `s`.
    pub open spec fn component(&self, ty: int, s: GenerationalIndex) -> Option<V> {
        component_in(self.arrays(), ty, s)
    }

    proof fn lemma_arrays(&self)
        ensures
            self.arrays().len() == self.0@.len(),
            forall|i: int|
                0 <= i < self.0@.len() ==> #[trigger] self.arrays()[i] == self.0@[i].entries(),
    {
    }

    pub fn new() -> (r: Self)
        ensures
            r.arrays() == Seq::<Seq<Option<(V, u64)>>>::empty(),
    {
        let r = ComponentMap(Vec::new());
        assert(r.arrays() =~= Seq::<Seq<Option<(V, u64)>>>::empty());
        r
    }

    /// Number of registered types.
    pub fn len(&self) -> (r: usize)
        ensures
            r == self.types(),
    {
        proof {
            self.lemma_arrays();
        }
        self.0.len()
    }

    /// Adds the array of a new type and returns the new type's ordinal.
    pub fn insert(&mut self, array: GenerationalIndexArray<V>) -> (r: usize)
        ensures
            r == old(self).types(),
            final(self).arrays() == old(self).arrays().push(array.entries()),
    {
        proof {
            self.lemma_arrays();
        }
        let r = self.0.len();
        self.0.push(array);
        proof {
            self.lemma_arrays();
            assert(self.arrays() =~= old(self).arrays().push(array.entries()));
        }
        r
    }

    /// The array of type `ty`.
    pub fn get(&self, ty: usize) -> (r: Result<&GenerationalIndexArray<V>, EcsError>)
        ensures
            ty < self.types() ==> (r matches Ok(a) && a.entries() == self.arrays()[ty as int]),
            ty >= self.types() ==> r == Err::<&GenerationalIndexArray<V>, EcsError>(
                EcsError::TypeNotRegistered,
            ),
    {
        proof {
            self.lemma_arrays();
        }
        if ty < self.0.len() {
            Ok(&self.0[ty])
        } else {
            Err(EcsError::TypeNotRegistered)
        }
    }

    /// Mutable access to the array of type `ty`.
    pub fn get_mut(&mut self, ty: usize) -> (r: Result<&mut GenerationalIndexArray<V>, EcsError>)
        ensures
            match r {
                Ok(a) => {
                    &&& ty < old(self).types()
                    &&& a.entries() == old(self).arrays()[ty as int]
                    &&& final(self).arrays() == old(self).arrays().update(
                        ty as int,
                        final(a).entries(),
                    )
                },
                Err(e) => {
                    &&& ty >= old(self).types()
                    &&& e == EcsError::TypeNotRegistered
                    &&& final(self).arrays() == old(self).arrays()
                },
            },
    {
        proof {
            self.lemma_arrays();
        }
        if ty < self.0.len() {
            let a = &mut self.0[ty];
            Ok(a)
        } else {
            Err(EcsError::TypeNotRegistered)
        }
    }
}

/// The arrays `m` after storing `v` for the incarnation `s` in the array of
/// type `ty`.
pub open spec fn write_component<V>(
    m: Seq<Seq<Option<(V, u64)>>>,
    ty: int,
    s: GenerationalIndex,
    v: V,
) -> Seq<Seq<Option<(V, u64)>>> {
    m.update(ty, stored_at(m[ty], s, v))
}

/// Writes through the two references of a join land in different arrays:
/// after both, each type reads back exactly what was written to it.
pub proof fn lemma_join_writes_disjoint<V>(
    m: Seq<Seq<Option<(V, u64)>>>,
    a: int,
    b: int,
    entity: GenerationalIndex,
    x: V,
    y: V,
)
    requires
        a != b,
        0 <= a < m.len(),
        0 <= b < m.len(),
    ensures
        lookup_in(write_component(write_component(m, a, entity, x), b, entity, y)[a], entity)
            == Some(x),
        lookup_in(write_component(write_component(m, a, entity, x), b, entity, y)[b], entity)
            == Some(y),
{
    lemma_lookup_stored(m[a], entity);
    lemma_lookup_stored(m[b], entity);
}

/// Mutable access to the components of two different types `a` and `b` of
/// the incarnation `entity` at once; absent when either is absent. Each
/// reference reaches only its own type's array, so writes through one never
/// change what the other reads.
pub fn join<V>(map: &mut ComponentMap<V>, a: usize, b: usize, entity: GenerationalIndex) -> (r:
    Option<(&mut V, &mut V)>)
    requires
        a != b,
    ensures
        match r {
            Some((x, y)) => {
                &&& old(map).component(a as int, entity) == Some(*x)
                &&& old(map).component(b as int, entity) == Some(*y)
                &&& final(map).arrays() == write_component(
                    write_component(old(map).arrays(), a as int, entity, *final(x)),
                    b as int,
                    entity,
                    *final(y),
                )
            },
            None => {
                &&& (old(map).component(a as int, entity) is None || old(map).component(
                    b as int,
                    entity,
                ) is None)
                &&& final(map).arrays() == old(map).arrays()
            },
        },
{
    proof {
        map.lemma_arrays();
    }
    let n = map.0.len();
    if a >= n || b >= n {
        return None;
    }
    let present_a = match map.0[a].get(entity) {
        Some(_) => true,
        None => false,
    };
    let present_b = match map.0[b].get(entity) {
        Some(_) => true,
        None => false,
    };
    if !present_a || !present_b {
        return None;
    }
    let (lo, hi) = if a < b {
        (a, b)
    } else {
        (b, a)
    };
    let ghost s0 = map.0@;
    let slice = map.0.as_mut_slice();
    let (left, right) = slice.split_at_mut(hi);
    let (_below, from_lo) = left.split_at_mut(lo);
    let arr_lo = from_lo.first_mut().unwrap();
    let arr_hi = right.first_mut().unwrap();
    assert(arr_lo.entries() == s0[lo as int].entries());
    assert(arr_hi.entries() == s0[hi as int].entries());
    let v_lo = arr_lo.get_mut(entity).unwrap();
    let v_hi = arr_hi.get_mut(entity).unwrap();
    proof {
        lemma_stored_in_range(s0[lo as int].entries(), entity);
        lemma_stored_in_range(s0[hi as int].entries(), entity);
    }
    if a < b {
        Some((v_lo, v_hi))
    } else {
        Some((v_hi, v_lo))
    }
}

} // verus!

//! A dense array addressed by generational slot handles.

use vstd::prelude::*;
use crate::slot::GenerationalIndex;

verus! {

/// A stored value and the generation of the slot it was written under.
pub struct ArrayEntry<T> {
    pub value: T,
    pub generation: u64,
}

/// An associative array from slot handles to values: position `i` holds
/// the value of the incarnation that last wrote it, tagged with that
/// incarnation's generation. A read succeeds only for the same generation.
pub struct GenerationalIndexArray<T>(Vec<Option<ArrayEntry<T>>>);

/// What a lookup under `s` yields in the positions `v`.
pub open spec fn lookup_in<T>(v: Seq<Option<(T, u64)>>, s: GenerationalIndex) -> Option<T> {
    if s.index < v.len() {
        match v[s.index as int] {
            Some(e) => if e.1 == s.generation {
                Some(e.0)
            } else {
                None
            },
            None => None,
        }
    } else {
        None
    }
}

/// The positions `v` after storing `x` for the incarnation `s`: its position
/// holds `x` tagged with `s`'s generation, positions that did not exist
/// below it are added as absent, and every other position is kept.
pub open spec fn stored_at<T>(v: Seq<Option<(T, u64)>>, s: GenerationalIndex, x: T) -> Seq<
    Option<(T, u64)>,
> {
    let len = if s.index < v.len() {
        v.len()
    } else {
        (s.index + 1) as nat
    };
    Seq::new(
        len,
        |i: int|
            if i == s.index {
                Some((x, s.generation))
            } else if i < v.len() {
                v[i]
            } else {
                None
            },
    )
}

/// Storing at an existing position is a plain update of that position.
pub proof fn lemma_stored_in_range<T>(v: Seq<Option<(T, u64)>>, s: GenerationalIndex)
    requires
        s.index < v.len(),
    ensures
        forall|x: T| #[trigger]
            stored_at(v, s, x) == v.update(s.index as int, Some((x, s.generation))),
{
    assert forall|x: T| #[trigger]
        stored_at(v, s, x) == v.update(s.index as int, Some((x, s.generation))) by {
        assert(stored_at(v, s, x) =~= v.update(s.index as int, Some((x, s.generation))));
    }
}

/// After storing `x` for the incarnation `s`, a lookup under `s` yields
/// `x`, a lookup under any other incarnation of the same position yields
/// nothing, and lookups at other positions are unchanged.
pub proof fn lemma_lookup_stored<T>(v: Seq<Option<(T, u64)>>, s: GenerationalIndex)
    ensures
        forall|x: T, q: GenerationalIndex| #[trigger]
            lookup_in(stored_at(v, s, x), q) == if q.index == s.index {
                if q.generation == s.generation {
                    Some(x)
                } else {
                    None
                }
            } else {
                lookup_in(v, q)
            },
{
}

impl<T> GenerationalIndexArray<T> {
    /// Each position: absent, or a value with the generation it belongs to.
    pub closed spec fn entries(&self) -> Seq<Option<(T, u64)>> {
        self.0@.map_values(
            |e: Option<ArrayEntry<T>>|
                match e {
                    Some(a) => Some((a.value, a.generation)),
                    None => None,
                },
        )
    }

    /// The value stored for exactly the incarnation `s`, if any.
    pub open spec fn lookup(&self, s: GenerationalIndex) -> Option<T> {
        lookup_in(self.entries(), s)
    }

    proof fn lemma_entries(&self)
        ensures
            self.entries().len() == self.0@.len(),
            forall|i: int|
                0 <= i < self.0@.len() ==> #[trigger] self.entries()[i] == match self.0@[i] {
                    Some(a) => Some((a.value, a.generation)),
                    None => None,
                },
    {
    }

    pub fn new() -> (r: Self)
        ensures
            r.entries() == Seq::<Option<(T, u64)>>::empty(),
    {
        let r = GenerationalIndexArray(Vec::new());
        assert(r.entries() =~= Seq::<Option<(T, u64)>>::empty());
        r
    }

    /// Number of positions; grows on demand by `set`.
    pub fn len(&self) -> (r: usize)
        ensures
            r == self.entries().len(),
    {
        proof {
            self.lemma_entries();
        }
        self.0.len()
    }

    /// Stores `value` for the incarnation `index`, replacing whatever an
    /// earlier incarnation of the same position held. Positions below it
    /// that did not exist yet are added as absent.
    pub fn set(&mut self, index: GenerationalIndex, value: T)
        ensures
            final(self).entries() == stored_at(old(self).entries(), index, value),
    {
        proof {
            self.lemma_entries();
        }
        while self.0.len() <= index.index
            invariant
                self.0@.len() > old(self).entries().len() ==> self.0@.len() <= index.index + 1,
                forall|i: int|
                    0 <= i < self.0@.len() ==> #[trigger] self.entries()[i] == if i < old(
                        self,
                    ).entries().len() {
                        old(self).entries()[i]
                    } else {
                        None
                    },
                self.0@.len() >= old(self).entries().len(),
                self.entries().len() == self.0@.len(),
            decreases index.index + 1 - self.0@.len(),
        {
            let ghost prev = self.entries();
            self.0.push(None);
            proof {
                self.lemma_entries();
                assert(self.entries() =~= prev.push(None));
            }
        }
        let ghost prev = self.entries();
        self.0.set(index.index, Some(ArrayEntry { value, generation: index.generation }));
        proof {
            self.lemma_entries();
            assert(self.entries() =~= prev.update(
                index.index as int,
                Some((value, index.generation)),
            ));
            assert(self.entries() =~= stored_at(old(self).entries(), index, value));
        }
    }

    /// The value for exactly the incarnation `index`: absent when the
    /// position holds another generation's value, nothing, or does not exist.
    pub fn get(&self, index: GenerationalIndex) -> (r: Option<&T>)
        ensures
            match r {
                Some(v) => self.lookup(index) == Some(*v),
                None => self.lookup(index) is None,
            },
    {
        proof {
            self.lemma_entries();
        }
        if index.index < self.0.len() {
            match &self.0[index.index] {
                Some(entry) => {
                    if entry.generation == index.generation {
                        Some(&entry.value)
                    } else {
                        None
                    }
                },
                None => None,
            }
        } else {
            None
        }
    }

    /// Mutable access to the value for exactly the incarnation `index`;
    /// whatever is written through it lands at that position with the same
    /// generation.
    pub fn get_mut(&mut self, index: GenerationalIndex) -> (r: Option<&mut T>)
        ensures
            match r {
                Some(m) => {
                    &&& old(self).lookup(index) == Some(*m)
                    &&& final(self).entries() == old(self).entries().update(
                        index.index as int,
                        Some((*final(m), index.generation)),
                    )
                },
                None => {
                    &&& old(self).lookup(index) is None
                    &&& final(self).entries() == old(self).entries()
                },
            },
    {
        proof {
            self.lemma_entries();
        }
        if index.index < self.0.len() {
            match &mut self.0[index.index] {
                Some(entry) => {
                    if entry.generation == index.generation {
                        Some(&mut entry.value)
                    } else {
                        None
                    }
                },
                None => None,
            }
        } else {
            None
        }
    }
}

} // verus!

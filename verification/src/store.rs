//! A component store: one mapping from entity to component value per
//! component type.  Entries live in a sparse array indexed by entity id, so
//! removal in one store never disturbs another.
use vstd::prelude::*;
use crate::entity::Entity;

verus! {

/// Maps entities to values of one component type.
pub struct Store<T> {
    slots: Vec<Option<T>>,
}

impl<T> View for Store<T> {
    type V = Map<usize, T>;

    /// The store as a finite map from entity id to component value.
    closed spec fn view(&self) -> Map<usize, T> {
        Map::new(
            |i: usize| i < self.slots@.len() && self.slots@[i as int] is Some,
            |i: usize| self.slots@[i as int]->Some_0,
        )
    }
}

impl<T: Copy> Store<T> {
    /// Ids at and above this bound have no entry.
    pub closed spec fn slot_bound(&self) -> nat {
        self.slots@.len()
    }

    /// An empty store.
    pub fn new() -> (r: Store<T>)
        ensures
            r@ == Map::<usize, T>::empty(),
            r.slot_bound() == 0,
    {
        let r = Store { slots: Vec::new() };
        proof {
            assert(r@ =~= Map::<usize, T>::empty());
        }
        r
    }

    /// Inserts `v` for `e`, overwriting any entry the store already held.
    pub fn add(&mut self, e: Entity, v: T)
        requires
            e.id < usize::MAX,
        ensures
            final(self)@ == old(self)@.insert(e.id, v),
            final(self).slot_bound() == if e.id + 1 > old(self).slot_bound() {
                e.id + 1
            } else {
                old(self).slot_bound() as int
            },
    {
        while self.slots.len() <= e.id
            invariant
                self@ == old(self)@,
                self.slot_bound() >= old(self).slot_bound(),
                self.slot_bound() <= e.id + 1 || self.slot_bound() == old(self).slot_bound(),
                e.id < usize::MAX,
            decreases e.id + 1 - self.slots.len(),
        {
            let ghost before = self@;
            self.slots.push(None);
            proof {
                assert(self@ =~= before);
            }
        }
        self.slots.set(e.id, Some(v));
        proof {
            assert(self@ =~= old(self)@.insert(e.id, v));
        }
    }

    /// The value stored for `e`, if the store holds one.
    pub fn get(&self, e: Entity) -> (r: Option<T>)
        ensures
            match r {
                Some(v) => self@.contains_key(e.id) && v == self@[e.id],
                None => !self@.contains_key(e.id),
            },
    {
        if e.id < self.slots.len() {
            self.slots[e.id]
        } else {
            None
        }
    }

    /// Removes the entry for `e`; a safe no-op when the store holds none.
    pub fn drop(&mut self, e: Entity)
        ensures
            final(self)@ == old(self)@.remove(e.id),
            final(self).slot_bound() == old(self).slot_bound(),
    {
        if e.id < self.slots.len() {
            self.slots.set(e.id, None);
        }
        proof {
            assert(self@ =~= old(self)@.remove(e.id));
        }
    }

    /// Every id with an entry lies below the slot bound, which itself fits
    /// in a `usize`.
    pub proof fn lemma_key_in_bound(&self, k: usize)
        requires
            self@.contains_key(k),
        ensures
            k < self.slot_bound(),
            self.slot_bound() <= usize::MAX,
    {
        broadcast use vstd::std_specs::vec::axiom_spec_len;

        assert(vstd::std_specs::vec::spec_vec_len(&self.slots) == self.slots@.len());
    }

    /// One past the largest id that may hold an entry: a pass over
    /// `0 .. slot_count()` visits every entry exactly once.
    pub fn slot_count(&self) -> (r: usize)
        ensures
            r == self.slot_bound(),
            forall|k: usize| self@.contains_key(k) ==> k < r,
    {
        self.slots.len()
    }
}

} // verus!

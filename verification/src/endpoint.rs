//! The endpoint's own state: its id generator and its table of resources.

use vstd::prelude::*;
use crate::assoc::{assoc, distinct, lemma_absent, lemma_at, lemma_dom, lemma_empty, lemma_push, lemma_remove_at, lemma_update_at};
use crate::ident::ResourceId;

verus! {

/// The source of the counters in an endpoint's resource ids.
pub struct IDGen {
    id: usize,
}

impl IDGen {
    /// The counter that the next id will carry.
    pub closed spec fn count(&self) -> nat {
        self.id as nat
    }

    pub fn new() -> (g: IDGen)
        ensures
            g.count() == 0,
    {
        IDGen { id: 0 }
    }

    /// A source of ids that goes on from `counter`.
    pub fn starting_at(counter: usize) -> (g: IDGen)
        ensures
            g.count() == counter,
    {
        IDGen { id: counter }
    }

    /// Whether every counter has been handed out.
    pub fn exhausted(&self) -> (b: bool)
        ensures
            b == (self.count() >= usize::MAX),
    {
        self.id == usize::MAX
    }

    /// Hands out the current counter and moves on to the next.
    pub fn next(&mut self) -> (n: usize)
        requires
            old(self).count() < usize::MAX,
        ensures
            n == old(self).count(),
            final(self).count() == old(self).count() + 1,
    {
        let curr = self.id;
        self.id += 1;
        curr
    }
}

/// One entry of the table: a resource under its id. `is_ref` tells whether the
/// object is the value itself or a reference to a value that lives elsewhere in
/// the process.
struct Slot<R> {
    id: ResourceId,
    object: R,
    is_ref: bool,
}

/// The resources that an endpoint holds, each under its id.
pub struct ResourceTable<R> {
    slots: Vec<Slot<R>>,
}

spec fn slot_ids<R>(slots: Seq<Slot<R>>) -> Seq<ResourceId> {
    Seq::new(slots.len(), |i: int| slots[i].id)
}

spec fn slot_entries<R>(slots: Seq<Slot<R>>) -> Seq<(R, bool)> {
    Seq::new(slots.len(), |i: int| (slots[i].object, slots[i].is_ref))
}

impl<R> View for ResourceTable<R> {
    type V = Map<ResourceId, (R, bool)>;

    closed spec fn view(&self) -> Map<ResourceId, (R, bool)> {
        assoc(slot_ids(self.slots@), slot_entries(self.slots@))
    }
}

impl<R> ResourceTable<R> {
    /// No id is stored twice.
    pub closed spec fn wf(&self) -> bool {
        distinct(slot_ids(self.slots@))
    }

    pub fn new() -> (t: ResourceTable<R>)
        ensures
            t.wf(),
            t@ == Map::<ResourceId, (R, bool)>::empty(),
    {
        let t = ResourceTable { slots: Vec::new() };
        proof {
            lemma_empty(slot_ids(t.slots@), slot_entries(t.slots@));
        }
        t
    }

    /// How many resources the table holds.
    pub fn len(&self) -> (n: usize)
        requires
            self.wf(),
        ensures
            n == self@.dom().len(),
            self@.dom().finite(),
    {
        proof {
            lemma_dom(slot_ids(self.slots@), slot_entries(self.slots@));
        }
        self.slots.len()
    }

    fn find(&self, id: &ResourceId) -> (r: Option<usize>)
        requires
            self.wf(),
        ensures
            match r {
                Some(i) => {
                    &&& i < self.slots@.len()
                    &&& self.slots@[i as int].id == *id
                    &&& self@.contains_key(*id)
                    &&& self@[*id] == (self.slots@[i as int].object, self.slots@[i as int].is_ref)
                },
                None => !self@.contains_key(*id),
            },
    {
        let mut i: usize = 0;
        while i < self.slots.len()
            invariant
                self.wf(),
                i <= self.slots@.len(),
                forall|j: int| 0 <= j < i ==> (#[trigger] self.slots@[j]).id != *id,
            decreases self.slots@.len() - i,
        {
            if self.slots[i].id == *id {
                proof {
                    lemma_at(slot_ids(self.slots@), slot_entries(self.slots@), i as int);
                }
                return Some(i);
            }
            i += 1;
        }
        proof {
            assert forall|j: int| 0 <= j < slot_ids(self.slots@).len() implies #[trigger] slot_ids(
                self.slots@,
            )[j] != *id by {
                assert(self.slots@[j].id != *id);
            }
            lemma_absent(slot_ids(self.slots@), slot_entries(self.slots@), *id);
        }
        None
    }

    /// Whether a resource is stored under `id`.
    pub fn contains(&self, id: &ResourceId) -> (b: bool)
        requires
            self.wf(),
        ensures
            b == self@.contains_key(*id),
    {
        self.find(id).is_some()
    }

    /// The flag of the resource under `id`: whether it is a stored reference.
    pub fn is_ref(&self, id: &ResourceId) -> (r: Option<bool>)
        requires
            self.wf(),
        ensures
            r == (if self@.contains_key(*id) {
                Some(self@[*id].1)
            } else {
                None
            }),
    {
        match self.find(id) {
            Some(i) => Some(self.slots[i].is_ref),
            None => None,
        }
    }

    /// A shared handle on the resource under `id`.
    pub fn borrow(&self, id: &ResourceId) -> (r: Option<&R>)
        requires
            self.wf(),
        ensures
            match r {
                Some(object) => self@.contains_key(*id) && *object == self@[*id].0,
                None => !self@.contains_key(*id),
            },
    {
        match self.find(id) {
            Some(i) => Some(&self.slots[i].object),
            None => None,
        }
    }

    /// An exclusive handle on the resource under `id`. What the caller leaves
    /// behind the handle is what the table then holds under `id`.
    pub fn borrow_mut(&mut self, id: &ResourceId) -> (r: Option<&mut R>)
        requires
            old(self).wf(),
        ensures
            final(self).wf(),
            match r {
                Some(object) => old(self)@.contains_key(*id) && *object == old(self)@[*id].0
                    && final(self)@ == old(self)@.insert(
                    *id,
                    (*final(object), old(self)@[*id].1),
                ),
                None => !old(self)@.contains_key(*id) && final(self)@ == old(self)@,
            },
    {
        match self.find(id) {
            Some(i) => {
                let slot = &mut self.slots[i];
                let object = &mut slot.object;
                proof {
                    let before = old(self).slots@;
                    let after = before.update(
                        i as int,
                        Slot { id: *id, object: *final(object), is_ref: before[i as int].is_ref },
                    );
                    assert(slot_ids(after) =~= slot_ids(before));
                    assert(slot_entries(after) =~= slot_entries(before).update(
                        i as int,
                        (*final(object), before[i as int].is_ref),
                    ));
                    lemma_update_at(
                        slot_ids(before),
                        slot_entries(before),
                        i as int,
                        (*final(object), before[i as int].is_ref),
                    );
                }
                Some(object)
            },
            None => None,
        }
    }

    /// Stores `object` under `id`, in place of what was stored there.
    pub fn insert(&mut self, id: ResourceId, object: R, is_ref: bool)
        requires
            old(self).wf(),
        ensures
            final(self).wf(),
            final(self)@ == old(self)@.insert(id, (object, is_ref)),
    {
        let _ = self.take(&id);
        let ghost before = self.slots@;
        assert(!self@.contains_key(id));
        self.slots.push(Slot { id, object, is_ref });
        proof {
            assert(slot_ids(self.slots@) =~= slot_ids(before).push(id));
            assert(slot_entries(self.slots@) =~= slot_entries(before).push((object, is_ref)));
            lemma_push(slot_ids(before), slot_entries(before), id, (object, is_ref));
            assert(old(self)@.remove(id).insert(id, (object, is_ref)) =~= old(self)@.insert(
                id,
                (object, is_ref),
            ));
        }
    }

    /// Takes the resource under `id` out of the table.
    pub fn take(&mut self, id: &ResourceId) -> (r: Option<(R, bool)>)
        requires
            old(self).wf(),
        ensures
            final(self).wf(),
            match r {
                Some(entry) => old(self)@.contains_key(*id) && entry == old(self)@[*id],
                None => !old(self)@.contains_key(*id),
            },
            final(self)@ == old(self)@.remove(*id),
    {
        match self.find(id) {
            Some(i) => {
                let slot = self.slots.remove(i);
                proof {
                    let before = old(self).slots@;
                    assert(slot_ids(self.slots@) =~= slot_ids(before).remove(i as int));
                    assert(slot_entries(self.slots@) =~= slot_entries(before).remove(i as int));
                    lemma_remove_at(slot_ids(before), slot_entries(before), i as int);
                }
                Some((slot.object, slot.is_ref))
            },
            None => {
                proof {
                    assert(old(self)@.remove(*id) =~= old(self)@);
                }
                None
            },
        }
    }

    /// Drops the resource under `id`, if there is one.
    pub fn remove(&mut self, id: &ResourceId)
        requires
            old(self).wf(),
        ensures
            final(self).wf(),
            final(self)@ == old(self)@.remove(*id),
    {
        let _ = self.take(id);
    }
}

} // verus!

//! Sorted per-kind component storage.
//!
//! Components are stored in a list ordered by owning entity id, so lookups
//! and upserts run a binary search. A store never holds two components with
//! the same owner.

use vstd::prelude::*;
use crate::entity::{Component, EntityID};

verus! {

/// A sequence is sorted strictly by owning entity id (so ids are unique).
pub open spec fn sorted_unique<T: Component>(s: Seq<T>) -> bool {
    forall|i: int, j: int| 0 <= i < j < s.len() ==> #[trigger] s[i].eid() < #[trigger] s[j].eid()
}

/// Some element of `s` is owned by `id`.
pub open spec fn store_contains<T: Component>(s: Seq<T>, id: u16) -> bool {
    exists|i: int| 0 <= i < s.len() && #[trigger] s[i].eid() == id
}

/// The index of the element owned by `id` (meaningful when `store_contains`
/// holds and `s` is sorted, which makes the index unique).
pub open spec fn store_index_of<T: Component>(s: Seq<T>, id: u16) -> int {
    choose|i: int| 0 <= i < s.len() && #[trigger] s[i].eid() == id
}

/// The component owned by `id`, if any.
pub open spec fn spec_lookup<T: Component>(s: Seq<T>, id: u16) -> Option<T> {
    if store_contains(s, id) {
        Some(s[store_index_of(s, id)])
    } else {
        None
    }
}

/// `p` is the position where a component owned by `id` belongs in `s`:
/// everything before is owned by smaller ids, everything from `p` on by
/// greater-or-equal ids.
pub open spec fn is_insert_pos<T: Component>(s: Seq<T>, id: u16, p: int) -> bool {
    &&& 0 <= p <= s.len()
    &&& forall|k: int| 0 <= k < p ==> #[trigger] s[k].eid() < id
    &&& forall|k: int| p <= k < s.len() ==> id <= #[trigger] s[k].eid()
}

/// The position where a component owned by `id` belongs in `s`.
pub open spec fn insert_pos<T: Component>(s: Seq<T>, id: u16) -> int {
    choose|p: int| is_insert_pos(s, id, p)
}

/// The contents of a store after an upsert: replace the entry with the same
/// owner if there is one, otherwise insert at the sorted position.
pub open spec fn spec_upsert<T: Component>(s: Seq<T>, c: T) -> Seq<T> {
    if store_contains(s, c.eid()) {
        s.update(store_index_of(s, c.eid()), c)
    } else {
        s.take(insert_pos(s, c.eid())) + seq![c] + s.skip(insert_pos(s, c.eid()))
    }
}

/// In a sorted store, at most one index holds a given owner.
pub proof fn lemma_sorted_index_unique<T: Component>(s: Seq<T>, i: int, j: int)
    requires
        sorted_unique(s),
        0 <= i < s.len(),
        0 <= j < s.len(),
        s[i].eid() == s[j].eid(),
    ensures
        i == j,
{
}

/// Replacing an entry with one of the same owner keeps the store sorted.
pub proof fn lemma_sorted_update_same_id<T: Component>(s: Seq<T>, i: int, c: T)
    requires
        sorted_unique(s),
        0 <= i < s.len(),
        s[i].eid() == c.eid(),
    ensures
        sorted_unique(s.update(i, c)),
{
}

/// There is at most one position satisfying `is_insert_pos`.
pub proof fn lemma_insert_pos_unique<T: Component>(s: Seq<T>, id: u16, p1: int, p2: int)
    requires
        is_insert_pos(s, id, p1),
        is_insert_pos(s, id, p2),
    ensures
        p1 == p2,
{
    if p1 < p2 {
        assert(s[p1].eid() < id);
    }
    if p2 < p1 {
        assert(s[p2].eid() < id);
    }
}

/// A sorted store has a position where a component owned by `id` belongs.
pub proof fn lemma_insert_pos_exists<T: Component>(s: Seq<T>, id: u16)
    requires
        sorted_unique(s),
    ensures
        is_insert_pos(s, id, insert_pos(s, id)),
    decreases s.len(),
{
    if s.len() == 0 {
        assert(is_insert_pos(s, id, 0));
    } else if s.last().eid() < id {
        assert(is_insert_pos(s, id, s.len() as int));
    } else {
        lemma_insert_pos_exists(s.drop_last(), id);
        let p = insert_pos(s.drop_last(), id);
        assert(forall|k: int| 0 <= k < p ==> s.drop_last()[k] == #[trigger] s[k]);
        assert(forall|k: int|
            p <= k < s.len() - 1 ==> s.drop_last()[k] == #[trigger] s[k]);
        assert(is_insert_pos(s, id, p));
    }
}

/// Inserting at the sorted position keeps the store sorted, provided the
/// owner is not already present.
pub proof fn lemma_sorted_insert<T: Component>(s: Seq<T>, c: T, p: int)
    requires
        sorted_unique(s),
        !store_contains(s, c.eid()),
        is_insert_pos(s, c.eid(), p),
    ensures
        sorted_unique(s.take(p) + seq![c] + s.skip(p)),
{
    let s2 = s.take(p) + seq![c] + s.skip(p);
    assert forall|i: int, j: int| 0 <= i < j < s2.len() implies s2[i].eid() < s2[j].eid() by {
        assert(forall|k: int| 0 <= k < s.len() ==> #[trigger] s[k].eid() != c.eid());
        if i < p {
            assert(s2[i] == s[i]);
        } else if i == p {
            assert(s2[i] == c);
        } else {
            assert(s2[i] == s[i - 1]);
        }
        if j < p {
            assert(s2[j] == s[j]);
        } else if j == p {
            assert(s2[j] == c);
        } else {
            assert(s2[j] == s[j - 1]);
        }
    }
}

/// Looking up an id right after an upsert with that id returns exactly the
/// upserted component; looking up any other id is unaffected by the upsert,
/// so an id never inserted stays absent.
pub proof fn lemma_lookup_after_upsert<T: Component>(s: Seq<T>, c: T, other: u16)
    requires
        sorted_unique(s),
        other != c.eid(),
    ensures
        spec_lookup(spec_upsert(s, c), c.eid()) == Some(c),
        spec_lookup(spec_upsert(s, c), other) == spec_lookup(s, other),
{
    let s2 = spec_upsert(s, c);
    if store_contains(s, c.eid()) {
        let i = store_index_of(s, c.eid());
        lemma_sorted_update_same_id(s, i, c);
        assert(s2[i].eid() == c.eid());
        lemma_sorted_index_unique(s2, i, store_index_of(s2, c.eid()));
        if store_contains(s, other) {
            let j = store_index_of(s, other);
            assert(s2[j].eid() == other);
            lemma_sorted_index_unique(s2, j, store_index_of(s2, other));
        } else {
            if store_contains(s2, other) {
                let j = store_index_of(s2, other);
                assert(s[j].eid() == other);
            }
        }
    } else {
        lemma_insert_pos_exists(s, c.eid());
        let p = insert_pos(s, c.eid());
        lemma_sorted_insert(s, c, p);
        assert(s2[p] == c);
        lemma_sorted_index_unique(s2, p, store_index_of(s2, c.eid()));
        if store_contains(s, other) {
            let j = store_index_of(s, other);
            let j2 = if j < p {
                j
            } else {
                j + 1
            };
            assert(s2[j2] == s[j]);
            lemma_sorted_index_unique(s2, j2, store_index_of(s2, other));
        } else {
            if store_contains(s2, other) {
                let j2 = store_index_of(s2, other);
                if j2 < p {
                    assert(s[j2].eid() == other);
                } else if j2 == p {
                    assert(s2[j2] == c);
                } else {
                    assert(s[j2 - 1].eid() == other);
                }
            }
        }
    }
}

/// A list holding at most one component per entity, sorted by entity id to
/// allow binary searching.
pub struct ComponentList<T: Component> {
    list: Vec<T>,
}

impl<T: Component> View for ComponentList<T> {
    type V = Seq<T>;

    closed spec fn view(&self) -> Seq<T> {
        self.list@
    }
}

impl<T: Component> ComponentList<T> {
    /// The store's invariant: sorted strictly by owning entity id.
    pub open spec fn wf(&self) -> bool {
        sorted_unique(self@)
    }

    /// An empty store.
    pub fn new() -> (r: ComponentList<T>)
        ensures
            r@ =~= Seq::<T>::empty(),
            r.wf(),
    {
        ComponentList { list: Vec::new() }
    }

    /// How many components the store holds.
    pub fn len(&self) -> (r: usize)
        ensures
            r == self@.len(),
    {
        self.list.len()
    }

    /// The component at a position; positions ascend by entity id.
    pub fn get(&self, index: usize) -> (r: &T)
        requires
            index < self@.len(),
        ensures
            *r == self@[index as int],
    {
        &self.list[index]
    }

    /// Searches for the position of the component owned by `entity_id`,
    /// or `None` if the entity owns no component of this kind.
    pub fn get_component_index(&self, entity_id: EntityID) -> (r: Option<usize>)
        requires
            self.wf(),
        ensures
            match r {
                Some(i) => i < self@.len() && self@[i as int].eid() == entity_id.0,
                None => !store_contains(self@, entity_id.0),
            },
    {
        let id = entity_id.0;
        let mut lo: usize = 0;
        let mut hi: usize = self.list.len();
        while lo < hi
            invariant
                self.wf(),
                0 <= lo <= hi <= self@.len(),
                forall|k: int| 0 <= k < lo ==> #[trigger] self@[k].eid() < id,
                forall|k: int| hi <= k < self@.len() ==> id <= #[trigger] self@[k].eid(),
            decreases hi - lo,
        {
            let mid = lo + (hi - lo) / 2;
            if self.list[mid].get_entity_id().0 < id {
                lo = mid + 1;
            } else {
                hi = mid;
            }
        }
        if lo < self.list.len() && self.list[lo].get_entity_id().0 == id {
            Some(lo)
        } else {
            None
        }
    }

    /// Write access to the component at a position. Writing a component with
    /// a different owner through the result breaks the store's invariant.
    pub fn get_mut(&mut self, index: usize) -> (r: &mut T)
        requires
            index < old(self)@.len(),
        ensures
            *r == old(self)@[index as int],
            final(self)@ == old(self)@.update(index as int, *final(r)),
    {
        &mut self.list[index]
    }

    /// Binary searches for the component owned by `entity_id`.
    pub fn get_component(&self, entity_id: EntityID) -> (r: Option<&T>)
        requires
            self.wf(),
        ensures
            match r {
                Some(t) => spec_lookup(self@, entity_id.0) == Some(*t),
                None => spec_lookup::<T>(self@, entity_id.0) is None,
            },
    {
        let index = self.get_component_index(entity_id);
        match index {
            None => None,
            Some(i) => {
                proof {
                    lemma_sorted_index_unique(self@, i as int, store_index_of(self@, entity_id.0));
                }
                Some(&self.list[i])
            }
        }
    }

    /// Binary searches for the component owned by `entity_id` and hands out
    /// write access to it. Writing a component with a different owner through
    /// the result breaks the store's invariant, so callers keep the owner.
    pub fn get_component_mut(&mut self, entity_id: EntityID) -> (r: Option<&mut T>)
        requires
            old(self).wf(),
        ensures
            match r {
                Some(m) => {
                    &&& store_contains(old(self)@, entity_id.0)
                    &&& *m == spec_lookup(old(self)@, entity_id.0).unwrap()
                    &&& final(self)@ == old(self)@.update(
                        store_index_of(old(self)@, entity_id.0),
                        *final(m),
                    )
                },
                None => {
                    &&& !store_contains(old(self)@, entity_id.0)
                    &&& final(self)@ == old(self)@
                },
            },
    {
        let index = self.get_component_index(entity_id);
        match index {
            None => None,
            Some(i) => {
                proof {
                    lemma_sorted_index_unique(self@, i as int, store_index_of(self@, entity_id.0));
                }
                Some(&mut self.list[i])
            }
        }
    }

    /// Adds a component to the store. If a component with the same owner
    /// already exists, replaces it; otherwise inserts at the sorted position.
    pub fn add_component(&mut self, component: T)
        requires
            old(self).wf(),
        ensures
            final(self).wf(),
            final(self)@ == spec_upsert(old(self)@, component),
    {
        let id = component.get_entity_id().0;
        let mut lo: usize = 0;
        let mut hi: usize = self.list.len();
        while lo < hi
            invariant
                self.wf(),
                0 <= lo <= hi <= self@.len(),
                self@ == old(self)@,
                forall|k: int| 0 <= k < lo ==> #[trigger] self@[k].eid() < id,
                forall|k: int| hi <= k < self@.len() ==> id <= #[trigger] self@[k].eid(),
            decreases hi - lo,
        {
            let mid = lo + (hi - lo) / 2;
            if self.list[mid].get_entity_id().0 < id {
                lo = mid + 1;
            } else {
                hi = mid;
            }
        }
        if lo < self.list.len() && self.list[lo].get_entity_id().0 == id {
            proof {
                lemma_sorted_index_unique(self@, lo as int, store_index_of(self@, id));
                lemma_sorted_update_same_id(self@, lo as int, component);
            }
            self.list.set(lo, component);
        } else {
            proof {
                assert(is_insert_pos(old(self)@, id, lo as int));
                if store_contains(old(self)@, id) {
                    let w = store_index_of(old(self)@, id);
                    assert(old(self)@[w].eid() == id);
                    assert(false);
                }
                lemma_insert_pos_unique(
                    old(self)@,
                    id,
                    lo as int,
                    insert_pos(old(self)@, id),
                );
                lemma_sorted_insert(old(self)@, component, lo as int);
            }
            self.list.insert(lo, component);
            proof {
                assert(self@ =~= old(self)@.take(lo as int) + seq![component] + old(
                    self,
                )@.skip(lo as int));
            }
        }
    }

    /// Removes and returns the component at a position. Used by the
    /// animation sweep, which deletes completed entries by index.
    pub fn remove(&mut self, index: usize) -> (r: T)
        requires
            old(self).wf(),
            index < old(self)@.len(),
        ensures
            final(self).wf(),
            r == old(self)@[index as int],
            final(self)@ == old(self)@.remove(index as int),
    {
        let r = self.list.remove(index);
        proof {
            assert(self@ =~= old(self)@.remove(index as int));
        }
        r
    }
}

} // verus!

use vstd::prelude::*;
use crate::entity::{Component, EntityID};

verus! {

/// Rows of one component kind, at most one per entity, kept in the order in
/// which their entities first got one.
///
/// A slot table indexed by entity id gives each entity's row position, so a
/// lookup costs one index operation. Adding a row for an entity that already
/// has one replaces that row in place.
pub struct CompList<T> {
    rows: Vec<T>,
    ids: Vec<EntityID>,
    slots: Vec<Option<usize>>,
}

impl<T> CompList<T> {
    /// The rows, in order.
    pub closed spec fn rows(&self) -> Seq<T> {
        self.rows@
    }

    /// The owning entity of each row, position for position.
    pub closed spec fn ids(&self) -> Seq<EntityID> {
        self.ids@
    }

    /// The slot table and the row owners describe each other.
    pub closed spec fn slots_agree(&self) -> bool {
        &&& self.rows@.len() == self.ids@.len()
        &&& forall|i: int|
            0 <= i < self.ids@.len() ==> {
                let k = (#[trigger] self.ids@[i]).0 as int;
                k < self.slots@.len() && self.slots@[k] == Some(i as usize)
            }
        &&& forall|k: int|
            0 <= k < self.slots@.len() ==> match #[trigger] self.slots@[k] {
                Some(i) => i < self.ids@.len() && self.ids@[i as int].0 == k,
                None => true,
            }
    }

    /// The store's invariant: one row per entity, each with a known owner.
    pub open spec fn wf(&self) -> bool {
        &&& self.slots_agree()
        &&& self.rows().len() == self.ids().len()
        &&& self.ids().no_duplicates()
    }

    /// `after` is `before` with `c` stored for entity `id`: the entity's row
    /// is replaced where it has one, else `c` is appended.
    pub open spec fn inserted(before: Self, after: Self, id: EntityID, c: T) -> bool {
        if before.ids().contains(id) {
            &&& after.ids() == before.ids()
            &&& exists|i: int|
                0 <= i < before.ids().len() && before.ids()[i] == id && after.rows()
                    == before.rows().update(i, c)
        } else {
            &&& after.ids() == before.ids().push(id)
            &&& after.rows() == before.rows().push(c)
        }
    }

    /// An empty store.
    pub fn new() -> (s: Self)
        ensures
            s.wf(),
            s.rows() == Seq::<T>::empty(),
            s.ids() == Seq::<EntityID>::empty(),
    {
        CompList { rows: Vec::new(), ids: Vec::new(), slots: Vec::new() }
    }

    /// Number of rows.
    pub fn len(&self) -> (n: usize)
        requires
            self.wf(),
        ensures
            n == self.rows().len(),
    {
        self.rows.len()
    }

    /// Position of the row that belongs to `id`, if there is one.
    pub fn index_of(&self, id: EntityID) -> (r: Option<usize>)
        requires
            self.wf(),
        ensures
            r.is_some() == self.ids().contains(id),
            r matches Some(i) ==> i < self.ids().len() && self.ids()[i as int] == id,
    {
        let k = id.0 as usize;
        if k < self.slots.len() {
            match self.slots[k] {
                Some(i) => {
                    assert(self.ids@[i as int].0 == k);
                    Some(i)
                },
                None => {
                    assert forall|i: int| 0 <= i < self.ids@.len() implies self.ids@[i] != id by {
                        assert(self.slots@[self.ids@[i].0 as int] == Some(i as usize));
                    }
                    None
                },
            }
        } else {
            assert forall|i: int| 0 <= i < self.ids@.len() implies self.ids@[i] != id by {
                assert(self.slots@[self.ids@[i].0 as int] == Some(i as usize));
            }
            None
        }
    }

    /// Stores `c` as the row of entity `id`.
    pub fn insert(&mut self, id: EntityID, c: T)
        requires
            old(self).wf(),
        ensures
            final(self).wf(),
            Self::inserted(*old(self), *final(self), id, c),
    {
        match self.index_of(id) {
            Some(i) => {
                self.rows.set(i, c);
                assert(self.ids@ == old(self).ids@);
            },
            None => {
                let k = id.0 as usize;
                while self.slots.len() <= k
                    invariant
                        self.rows@ == old(self).rows@,
                        self.ids@ == old(self).ids@,
                        old(self).slots@.len() <= self.slots@.len(),
                        self.slots@.len() > old(self).slots@.len() ==> self.slots@.len() <= k + 1,
                        forall|j: int|
                            0 <= j < self.slots@.len() ==> #[trigger] self.slots@[j] == if j
                                < old(self).slots@.len() {
                                old(self).slots@[j]
                            } else {
                                None
                            },
                    decreases k + 1 - self.slots.len(),
                {
                    self.slots.push(None);
                }
                let i = self.rows.len();
                self.rows.push(c);
                self.ids.push(id);
                self.slots.set(k, Some(i));
                assert forall|j: int| 0 <= j < self.ids@.len() implies {
                    let m = (#[trigger] self.ids@[j]).0 as int;
                    m < self.slots@.len() && self.slots@[m] == Some(j as usize)
                } by {
                    if j < i as int {
                        assert(self.ids@[j] == old(self).ids@[j]);
                        assert(self.ids@[j] != id);
                    }
                }
                assert forall|m: int| 0 <= m < self.slots@.len() implies match #[trigger] self.slots@[m] {
                    Some(j) => j < self.ids@.len() && self.ids@[j as int].0 == m,
                    None => true,
                } by {
                    if m != k as int && m < old(self).slots@.len() {
                        assert(self.slots@[m] == old(self).slots@[m]);
                    }
                }
                assert(self.ids@ == old(self).ids@.push(id));
                assert(self.ids@.no_duplicates());
            },
        }
    }

    /// Stores `c` as the row of the entity that it reports as its owner.
    pub fn add_component(&mut self, c: T)
        where
            T: Component,
        requires
            old(self).wf(),
        ensures
            final(self).wf(),
            exists|id: EntityID| Self::inserted(*old(self), *final(self), id, c),
    {
        let id = c.get_entity_id();
        self.insert(id, c);
    }

    /// Owner of the row at position `i`.
    pub fn entity_at(&self, i: usize) -> (id: EntityID)
        requires
            self.wf(),
            i < self.rows().len(),
        ensures
            id == self.ids()[i as int],
    {
        self.ids[i]
    }

    /// The row at position `i`.
    pub fn get_at(&self, i: usize) -> (c: &T)
        requires
            self.wf(),
            i < self.rows().len(),
        ensures
            *c == self.rows()[i as int],
    {
        &self.rows[i]
    }

    /// The row at position `i`, for update in place.
    pub fn get_at_mut(&mut self, i: usize) -> (c: &mut T)
        requires
            old(self).wf(),
            i < old(self).rows().len(),
        ensures
            *c == old(self).rows()[i as int],
            final(self).wf(),
            final(self).ids() == old(self).ids(),
            final(self).rows() == old(self).rows().update(i as int, *final(c)),
    {
        &mut self.rows[i]
    }

    /// The row of entity `id`, if it has one.
    pub fn get_component(&self, id: EntityID) -> (r: Option<&T>)
        requires
            self.wf(),
        ensures
            r.is_some() == self.ids().contains(id),
            r matches Some(c) ==> exists|i: int|
                0 <= i < self.ids().len() && self.ids()[i] == id && *c == self.rows()[i],
    {
        match self.index_of(id) {
            Some(i) => Some(&self.rows[i]),
            None => None,
        }
    }

    /// The row of entity `id`, if it has one, for update in place.
    pub fn get_component_mut(&mut self, id: EntityID) -> (r: Option<&mut T>)
        requires
            old(self).wf(),
        ensures
            r.is_some() == old(self).ids().contains(id),
            final(self).wf(),
            final(self).ids() == old(self).ids(),
            r.is_none() ==> final(self).rows() == old(self).rows(),
            r matches Some(c) ==> exists|i: int|
                0 <= i < old(self).ids().len() && old(self).ids()[i] == id && *c == old(
                    self,
                ).rows()[i] && final(self).rows() == old(self).rows().update(i, *final(c)),
    {
        match self.index_of(id) {
            Some(i) => Some(self.get_at_mut(i)),
            None => None,
        }
    }
}

} // verus!

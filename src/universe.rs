//! The storage engine: entity slots, their reuse, and one bucket per component type.

use crate::component_bucket::{present_of, ComponentBucket};
use crate::erased::KeyedValue;
use crate::type_key::TypeKey;
use crate::{EntityId, Index};
use std::any::TypeId;
use std::collections::HashMap;
use vstd::prelude::*;

verus! {

broadcast use vstd::std_specs::hash::group_hash_axioms;

/// The state of the slot that an entity identifier names.
///
/// An `Occupied` slot holds the entity's data in every bucket; a `Vacant` one
/// belonged to a removed entity and waits for the next entity to be created.
#[derive(Debug, Clone, Copy, PartialEq, Eq, Structural)]
pub enum EntityRecord {
    Occupied(Index),
    Vacant(Index),
}

impl EntityRecord {
    /// The slot the record names, whatever its state.
    pub open spec fn index(self) -> Index {
        match self {
            EntityRecord::Occupied(i) => i,
            EntityRecord::Vacant(i) => i,
        }
    }
}

/// What a [`Universe`] holds, as far as its contracts speak of it.
///
/// `owners[i]` is the identifier whose record names slot `i`; `presence[b][i]`
/// says whether the bucket keyed by `keys[b]` holds a value at slot `i`.
#[verifier::ext_equal]
pub struct UniverseView {
    pub next_id: EntityId,
    pub records: Map<EntityId, EntityRecord>,
    pub owners: Seq<EntityId>,
    pub keys: Seq<TypeId>,
    pub presence: Seq<Seq<bool>>,
}

impl UniverseView {
    pub open spec fn empty() -> Self {
        UniverseView {
            next_id: 0,
            records: Map::empty(),
            owners: Seq::empty(),
            keys: Seq::empty(),
            presence: Seq::empty(),
        }
    }

    /// The number of slots ever allocated: the length of every bucket.
    pub open spec fn slot_count(self) -> nat {
        self.owners.len()
    }

    /// `e` names a live entity.
    pub open spec fn contains(self, e: EntityId) -> bool {
        self.records.contains_key(e) && self.records[e] is Occupied
    }

    /// The slot that `e`'s record names.
    pub open spec fn slot(self, e: EntityId) -> int {
        self.records[e].index() as int
    }

    /// The slot of `e` if it is live, `-1` (no slot) otherwise.
    pub open spec fn slot_or_none(self, e: EntityId) -> int {
        if self.contains(e) {
            self.slot(e)
        } else {
            -1
        }
    }

    pub open spec fn vacant_slot(self, i: int) -> bool {
        self.records[self.owners[i]] is Vacant
    }

    /// The lowest vacant slot at or after `i`.
    pub open spec fn first_vacant_from(self, i: int) -> Option<int>
        decreases self.owners.len() - i,
    {
        if i < 0 || i >= self.owners.len() {
            None
        } else if self.vacant_slot(i) {
            Some(i)
        } else {
            self.first_vacant_from(i + 1)
        }
    }

    /// A bucket exists for the component type keyed `k`.
    pub open spec fn has_bucket(self, k: TypeId) -> bool {
        self.keys.contains(k)
    }

    /// The position of the bucket keyed `k`.
    pub open spec fn key_pos(self, k: TypeId) -> int {
        key_position(self.keys, k)
    }

    /// The live entity `e` has a value in the bucket keyed `k`.
    pub open spec fn has(self, k: TypeId, e: EntityId) -> bool {
        &&& self.contains(e)
        &&& self.has_bucket(k)
        &&& self.presence[self.key_pos(k)][self.slot(e)]
    }

    /// Every record names a slot owned by its identifier and every slot is owned by
    /// one record; identifiers are below `next_id`; keys are distinct; every bucket
    /// has one entry per slot; a vacant slot is empty in every bucket.
    pub open spec fn wf(self) -> bool {
        &&& forall|e: EntityId| #[trigger]
            self.records.contains_key(e) ==> {
                &&& e < self.next_id
                &&& self.records[e].index() < self.owners.len()
                &&& self.owners[self.records[e].index() as int] == e
            }
        &&& forall|i: int|
            0 <= i < self.owners.len() ==> {
                &&& self.records.contains_key(#[trigger] self.owners[i])
                &&& self.records[self.owners[i]].index() == i
            }
        &&& self.owners.len() <= self.next_id
        &&& self.keys.no_duplicates()
        &&& self.presence.len() == self.keys.len()
        &&& forall|b: int| 0 <= b < self.presence.len() ==> #[trigger] self.presence[b].len() == self.owners.len()
        &&& forall|b: int, i: int|
            0 <= b < self.presence.len() && 0 <= i < self.owners.len() && self.vacant_slot(i)
                ==> !#[trigger] self.presence[b][i]
    }

    /// The state after creating an entity: the lowest vacant slot is handed to the
    /// next identifier and the old identifier forgotten; without a vacant slot a new
    /// one is appended, empty in every bucket.
    pub open spec fn created(self) -> Self {
        match self.first_vacant_from(0) {
            Some(i) => UniverseView {
                next_id: (self.next_id + 1) as EntityId,
                records: self.records.remove(self.owners[i]).insert(
                    self.next_id,
                    EntityRecord::Occupied(i as Index),
                ),
                owners: self.owners.update(i, self.next_id),
                ..self
            },
            None => UniverseView {
                next_id: (self.next_id + 1) as EntityId,
                records: self.records.insert(
                    self.next_id,
                    EntityRecord::Occupied(self.owners.len() as Index),
                ),
                owners: self.owners.push(self.next_id),
                keys: self.keys,
                presence: self.presence.map_values(|p: Seq<bool>| p.push(false)),
            },
        }
    }

    /// The state after removing `e`: its slot turns vacant and empty in every bucket.
    /// Nothing changes for an identifier that names no live entity.
    pub open spec fn removed(self, e: EntityId) -> Self {
        if self.contains(e) {
            UniverseView {
                records: self.records.insert(e, EntityRecord::Vacant(self.records[e].index())),
                presence: self.presence.map_values(|p: Seq<bool>| p.update(self.slot(e), false)),
                ..self
            }
        } else {
            self
        }
    }

    /// The state after attaching a component keyed `k` to `e`: the bucket is created
    /// if missing, then `e`'s slot in it is filled if `e` is live.
    pub open spec fn attached(self, k: TypeId, e: EntityId) -> Self {
        self.with_bucket(k).filled(k, e)
    }

    /// The state with `e`'s slot filled in the bucket keyed `k`, when both exist.
    pub open spec fn filled(self, k: TypeId, e: EntityId) -> Self {
        if self.has_bucket(k) && self.contains(e) {
            UniverseView {
                presence: self.presence.update(
                    self.key_pos(k),
                    self.presence[self.key_pos(k)].update(self.slot(e), true),
                ),
                ..self
            }
        } else {
            self
        }
    }

    /// The state with a bucket keyed `k`: unchanged if there is one, otherwise with an
    /// empty bucket appended.
    pub open spec fn with_bucket(self, k: TypeId) -> Self {
        if self.has_bucket(k) {
            self
        } else {
            UniverseView {
                keys: self.keys.push(k),
                presence: self.presence.push(Seq::new(self.owners.len(), |i: int| false)),
                ..self
            }
        }
    }

    /// The state after detaching the component keyed `k` from `e`.
    pub open spec fn detached(self, k: TypeId, e: EntityId) -> Self {
        if self.has_bucket(k) && self.contains(e) {
            UniverseView {
                presence: self.presence.update(
                    self.key_pos(k),
                    self.presence[self.key_pos(k)].update(self.slot(e), false),
                ),
                ..self
            }
        } else {
            self
        }
    }
}

/// Stores entities and their components.
///
/// Each entity has at most one component of each type. Components are attached,
/// detached, queried and modified by entity and type.
pub struct Universe {
    next_entity_id: EntityId,
    entity_id_records: HashMap<EntityId, EntityRecord>,
    slot_owners: Vec<EntityId>,
    component_types: Vec<TypeId>,
    component_buckets: Vec<Vec<Option<KeyedValue>>>,
}

impl View for Universe {
    type V = UniverseView;

    closed spec fn view(&self) -> UniverseView {
        UniverseView {
            next_id: self.next_entity_id,
            records: self.entity_id_records@,
            owners: self.slot_owners@,
            keys: self.component_types@,
            presence: presence_of_buckets(self.component_buckets@),
        }
    }
}

impl Default for Universe {
    fn default() -> (r: Self)
        ensures
            r.wf(),
            r@ == UniverseView::empty(),
    {
        Universe::new()
    }
}

impl Universe {
    /// The universe's invariant: its view is well formed and every bucket has its key.
    pub open spec fn wf(&self) -> bool {
        &&& self@.wf()
        &&& self.buckets_keyed()
        &&& self.contents().len() == self@.keys.len()
    }

    /// Every bucket has its key, and every value in a bucket has the bucket's key.
    pub closed spec fn buckets_keyed(&self) -> bool {
        &&& self.component_buckets@.len() == self.component_types@.len()
        &&& tags_match(self.component_buckets@, self.component_types@)
    }

    /// The values stored in each bucket.
    pub closed spec fn contents(&self) -> Seq<Seq<Option<KeyedValue>>> {
        contents_of(self.component_buckets@)
    }

    /// An empty universe.
    pub fn new() -> (r: Self)
        ensures
            r.wf(),
            r@ == UniverseView::empty(),
    {
        let r = Universe {
            next_entity_id: 0,
            entity_id_records: HashMap::new(),
            slot_owners: Vec::new(),
            component_types: Vec::new(),
            component_buckets: Vec::new(),
        };
        assert(r@ =~= UniverseView::empty());
        r
    }

    /// Checks whether `entity_id` names a live entity.
    pub fn contains_entity(&self, entity_id: EntityId) -> (r: bool)
        requires
            self.wf(),
        ensures
            r == self@.contains(entity_id),
    {
        match self.entity_id_records.get(&entity_id) {
            Some(EntityRecord::Occupied(_)) => true,
            _ => false,
        }
    }

    /// The slot of `entity_id` when it names a live entity.
    fn occupied_slot(&self, entity_id: EntityId) -> (r: Option<Index>)
        requires
            self.wf(),
        ensures
            r matches Some(i) ==> self@.contains(entity_id) && i == self@.slot(entity_id),
            r is None ==> !self@.contains(entity_id),
    {
        match self.entity_id_records.get(&entity_id) {
            Some(EntityRecord::Occupied(i)) => Some(*i),
            _ => None,
        }
    }

    /// The lowest vacant slot.
    fn first_vacant_slot(&self) -> (r: Option<Index>)
        requires
            self.wf(),
        ensures
            r matches Some(i) ==> self@.first_vacant_from(0) == Some(i as int) && i < self@.owners.len(),
            r is None ==> self@.first_vacant_from(0) is None,
    {
        let n = self.slot_owners.len();
        let mut i: usize = 0;
        while i < n
            invariant
                self.wf(),
                n == self@.owners.len(),
                i <= n,
                self@.first_vacant_from(0) == self@.first_vacant_from(i as int),
            decreases n - i,
        {
            let owner = self.slot_owners[i];
            assert(self@.records.contains_key(self@.owners[i as int]));
            match self.entity_id_records.get(&owner) {
                Some(EntityRecord::Vacant(_)) => {
                    return Some(i);
                },
                _ => {},
            }
            i += 1;
        }
        None
    }

    /// Creates an entity and returns its identifier, one above the previous one.
    ///
    /// The entity takes the lowest vacant slot when there is one; the identifier that
    /// held that slot is forgotten. Otherwise every bucket grows by one empty slot.
    /// Either way the new entity has no component.
    pub fn create_entity(&mut self) -> (r: EntityId)
        requires
            old(self).wf(),
            old(self)@.next_id < usize::MAX,
        ensures
            final(self).wf(),
            r == old(self)@.next_id,
            final(self)@ == old(self)@.created(),
            final(self)@.contains(r),
            forall|k: TypeId| !#[trigger] final(self)@.has(k, r),
            forall|e: EntityId| #[trigger]
                old(self)@.contains(e) ==> final(self)@.contains(e) && final(self)@.slot(e) == old(
                    self,
                )@.slot(e),
            forall|k: TypeId, e: EntityId|
                e != r ==> #[trigger] final(self)@.has(k, e) == old(self)@.has(k, e),
            old(self)@.first_vacant_from(0) is Some ==> final(self).contents() == old(self).contents(),
            old(self)@.first_vacant_from(0) is None ==> final(self).contents() == old(
                self,
            ).contents().map_values(|c: Seq<Option<KeyedValue>>| c.push(None)),
    {
        let ghost pre = self@;
        let new_entity_id = self.next_entity_id;
        let vacant = self.first_vacant_slot();
        self.next_entity_id = new_entity_id + 1;
        match vacant {
            Some(index) => {
                let old_entity_id = self.slot_owners[index];
                self.entity_id_records.insert(new_entity_id, EntityRecord::Occupied(index));
                self.entity_id_records.remove(&old_entity_id);
                self.slot_owners.set(index, new_entity_id);
                assert(self@ =~= pre.created());
            },
            None => {
                let new_index = self.slot_owners.len();
                self.entity_id_records.insert(new_entity_id, EntityRecord::Occupied(new_index));
                self.slot_owners.push(new_entity_id);
                self.grow_buckets();
                assert(self@ =~= pre.created());
            },
        }
        proof {
            lemma_created_wf(pre);
            lemma_created_keeps_others(pre);
        }
        new_entity_id
    }

    /// Removes an entity: its slot turns vacant and its components are dropped.
    /// An identifier that names no live entity is ignored.
    pub fn remove_entity(&mut self, entity_id: EntityId)
        requires
            old(self).wf(),
        ensures
            final(self).wf(),
            final(self)@ == old(self)@.removed(entity_id),
            !final(self)@.contains(entity_id),
            forall|k: TypeId| !#[trigger] final(self)@.has(k, entity_id),
            forall|e: EntityId|
                e != entity_id ==> #[trigger] final(self)@.contains(e) == old(self)@.contains(e),
            forall|k: TypeId, e: EntityId|
                e != entity_id ==> #[trigger] final(self)@.has(k, e) == old(self)@.has(k, e),
            old(self)@.contains(entity_id) ==> final(self).contents() == old(self).contents().map_values(
                |c: Seq<Option<KeyedValue>>| c.update(old(self)@.slot(entity_id), None),
            ),
            !old(self)@.contains(entity_id) ==> final(self).contents() == old(self).contents(),
    {
        let ghost pre = self@;
        if let Some(index) = self.occupied_slot(entity_id) {
            let n = self.component_buckets.len();
            let mut b: usize = 0;
            while b < n
                invariant
                    pre == old(self)@,
                    old(self).wf(),
                    pre.contains(entity_id),
                    index == pre.slot(entity_id),
                    n == self.component_buckets@.len(),
                    n == old(self).component_buckets@.len(),
                    b <= n,
                    self.component_types@ == old(self).component_types@,
                    self.next_entity_id == old(self).next_entity_id,
                    self.entity_id_records@ == old(self).entity_id_records@,
                    self.slot_owners@ == old(self).slot_owners@,
                    forall|j: int|
                        0 <= j < b ==> #[trigger] present_of(self.component_buckets@[j]@)
                            == present_of(old(self).component_buckets@[j]@).update(index as int, false),
                    forall|j: int|
                        0 <= j < b ==> #[trigger] self.component_buckets@[j]@ == old(
                            self,
                        ).component_buckets@[j]@.update(index as int, None),
                    forall|j: int|
                        b <= j < n ==> #[trigger] self.component_buckets@[j] == old(
                            self,
                        ).component_buckets@[j],
                decreases n - b,
            {
                assert(present_of(self.component_buckets@[b as int]@) == pre.presence[b as int]);
                self.component_buckets[b].remove_component(index);
                b += 1;
            }
            self.entity_id_records.insert(entity_id, EntityRecord::Vacant(index));
            assert(self@ =~= pre.removed(entity_id));
            assert(self.contents() =~= old(self).contents().map_values(
                |c: Seq<Option<KeyedValue>>| c.update(index as int, None),
            ));
            proof {
                let bs = self.component_buckets@;
                let ob = old(self).component_buckets@;
                assert(old(self).buckets_keyed());
                assert(tags_match(bs, self.component_types@)) by {
                    assert forall|c: int, j: int| 0 <= c < bs.len() && 0 <= j < bs[c]@.len() implies (
                        #[trigger] bs[c]@[j] matches Some(v) ==> v.key() == self.component_types@[c]) by {
                        lemma_live_slot(pre, entity_id);
                        assert(pre.presence[c].len() == pre.owners.len());
                        assert(present_of(ob[c]@).len() == ob[c]@.len());
                        assert(bs[c]@ == ob[c]@.update(index as int, None));
                        if j != index {
                            assert(bs[c]@[j] == ob[c]@[j]);
                        }
                    }
                }
            }
            proof {
                lemma_removed_wf(pre, entity_id);
            }
        }
        proof {
            lemma_removed_entity_is_gone(old(self)@, entity_id);
            lemma_removed_keeps_others(old(self)@, entity_id);
        }
    }

    /// Attaches a component of type `T`, set to `T::default()`, to `entity_id`;
    /// see [`Universe::add_component_of`].
    pub fn add_component<T: Default + 'static>(&mut self, entity_id: EntityId)
        requires
            old(self).wf(),
        ensures
            final(self).wf(),
            exists|k: TypeId|
                final(self)@ == #[trigger] old(self)@.attached(k, entity_id) && values_kept_except(
                    old(self).contents(),
                    final(self).contents(),
                    final(self)@.key_pos(k),
                    old(self)@.slot_or_none(entity_id),
                ),
    {
        let key = TypeKey::<T>::of();
        self.add_component_of(&key, entity_id, || T::default());
    }

    /// Attaches a component of type `T`, set to what `builder` returns, to
    /// `entity_id`; see [`Universe::add_component_of`].
    pub fn add_component_with<T, BUILDER>(&mut self, entity_id: EntityId, builder: BUILDER)
        where
            T: Default + 'static,
            BUILDER: FnOnce() -> T,
        requires
            old(self).wf(),
            builder.requires(()),
        ensures
            final(self).wf(),
            exists|k: TypeId|
                final(self)@ == #[trigger] old(self)@.attached(k, entity_id) && values_kept_except(
                    old(self).contents(),
                    final(self).contents(),
                    final(self)@.key_pos(k),
                    old(self)@.slot_or_none(entity_id),
                ),
    {
        let key = TypeKey::<T>::of();
        self.add_component_of(&key, entity_id, builder);
    }

    /// Attaches a component of type `T`, set to what `builder` returns, to
    /// `entity_id`.
    ///
    /// The bucket for `T` is created on first use, with one empty slot per slot of
    /// the universe. `builder` is called once when `entity_id` names a live entity;
    /// for any other identifier nothing is written, though the bucket is still
    /// created. No other stored value changes.
    pub fn add_component_of<T, BUILDER>(&mut self, key: &TypeKey<T>, entity_id: EntityId, builder: BUILDER)
        where
            T: 'static,
            BUILDER: FnOnce() -> T,
        requires
            old(self).wf(),
            builder.requires(()),
        ensures
            final(self).wf(),
            final(self)@ == old(self)@.attached(key.id(), entity_id),
            values_kept_except(
                old(self).contents(),
                final(self).contents(),
                final(self)@.key_pos(key.id()),
                old(self)@.slot_or_none(entity_id),
            ),
    {
        let slot = self.occupied_slot(entity_id);
        let b = self.bucket_for(key.type_id());
        let ghost mid = self.contents();
        if let Some(index) = slot {
            proof {
                lemma_live_slot(self@, entity_id);
            }
            self.fill_slot(b, index, KeyedValue::new(key, builder()));
        }
        assert(self@ =~= old(self)@.attached(key.id(), entity_id));
    }

    /// Detaches the component of type `T` from `entity_id`; see
    /// [`Universe::remove_component_of`].
    pub fn remove_component<T: Default + 'static>(&mut self, entity_id: EntityId)
        requires
            old(self).wf(),
        ensures
            final(self).wf(),
            exists|k: TypeId|
                final(self)@ == #[trigger] old(self)@.detached(k, entity_id) && values_kept_except(
                    old(self).contents(),
                    final(self).contents(),
                    old(self)@.key_pos(k),
                    old(self)@.slot_or_none(entity_id),
                ),
    {
        let key = TypeKey::<T>::of();
        self.remove_component_of(&key.type_id(), entity_id);
    }

    /// Detaches the component keyed `key` from `entity_id`, if it has one. The
    /// bucket stays, even when it is left empty. No other stored value changes.
    pub fn remove_component_of(&mut self, key: &TypeId, entity_id: EntityId)
        requires
            old(self).wf(),
        ensures
            final(self).wf(),
            final(self)@ == old(self)@.detached(*key, entity_id),
            values_kept_except(
                old(self).contents(),
                final(self).contents(),
                old(self)@.key_pos(*key),
                old(self)@.slot_or_none(entity_id),
            ),
    {
        if let Some(b) = self.bucket_position(key) {
            if let Some(index) = self.occupied_slot(entity_id) {
                let ghost pre = self.component_buckets@;
                assert(present_of(self.component_buckets@[b as int]@) == self@.presence[b as int]);
                self.component_buckets[b].remove_component(index);
                assert(self@ =~= old(self)@.detached(*key, entity_id));
                proof {
                    lemma_detached_wf(old(self)@, *key, entity_id);
                    assert(self.buckets_keyed()) by {
                        assert forall|c: int, j: int|
                            0 <= c < self.component_buckets@.len() && 0 <= j
                                < self.component_buckets@[c]@.len() implies (
                            #[trigger] self.component_buckets@[c]@[j] matches Some(v)
                                ==> v.key() == self.component_types@[c]) by {
                            assert(tags_match(pre, old(self).component_types@));
                            assert(self.component_types@ == old(self).component_types@);
                            if c != b {
                                assert(self.component_buckets@[c] == pre[c]);
                                assert(pre[c]@[j] matches Some(v) ==> v.key() == self.component_types@[c]);
                            } else if j != index {
                                lemma_live_slot(old(self)@, entity_id);
                                assert(old(self)@.presence[c].len() == old(self)@.owners.len());
                                assert(present_of(pre[c]@).len() == pre[c]@.len());
                                assert(self.component_buckets@[c]@ == pre[c]@.update(index as int, None));
                                assert(self.component_buckets@[c]@[j] == pre[c]@[j]);
                                assert(pre[c]@[j] matches Some(v) ==> v.key() == self.component_types@[c]);
                            } else {
                                lemma_live_slot(old(self)@, entity_id);
                                assert(old(self)@.presence[c].len() == old(self)@.owners.len());
                                assert(present_of(pre[c]@).len() == pre[c]@.len());
                                assert(self.component_buckets@[c]@ == pre[c]@.update(index as int, None));
                                assert(self.component_buckets@[c]@[j] is None);
                            }
                        }
                    }
                    lemma_live_slot(old(self)@, entity_id);
                    assert(old(self)@.presence[b as int].len() == old(self)@.owners.len());
                    assert(present_of(pre[b as int]@).len() == pre[b as int]@.len());
                    assert(self.component_buckets@[b as int]@ == pre[b as int]@.update(index as int, None));
                    assert forall|c: int| 0 <= c < pre.len() implies #[trigger] self.contents()[c] == (
                        if c == b { pre[c]@.update(index as int, None) } else { pre[c]@ }) by {}
                }
            }
        }
    }

    /// Checks whether the live entity `entity_id` has a component of type `T`.
    pub fn has_component<T: Default + 'static>(&self, entity_id: EntityId) -> (r: bool)
        requires
            self.wf(),
        ensures
            exists|k: TypeId| r == #[trigger] self@.has(k, entity_id),
            r ==> self@.contains(entity_id),
    {
        let key = TypeKey::<T>::of();
        self.has_component_of(&key.type_id(), entity_id)
    }

    /// Checks whether the live entity `entity_id` has a component keyed `key`.
    pub fn has_component_of(&self, key: &TypeId, entity_id: EntityId) -> (r: bool)
        requires
            self.wf(),
        ensures
            r == self@.has(*key, entity_id),
    {
        match self.bucket_position(key) {
            Some(b) => match self.occupied_slot(entity_id) {
                Some(index) => {
                    assert(present_of(self.component_buckets@[b as int]@) == self@.presence[b as int]);
                    self.component_buckets[b][index].is_some()
                },
                None => false,
            },
            None => false,
        }
    }

    /// The component of type `T` of the live entity `entity_id`, if it has one;
    /// see [`Universe::get_component_of`].
    pub fn get_component<T: Default + 'static>(&self, entity_id: EntityId) -> (r: Option<&T>)
        requires
            self.wf(),
        ensures
            exists|k: TypeId| (r is Some) == #[trigger] self@.has(k, entity_id),
    {
        let key = TypeKey::<T>::of();
        self.get_component_of(&key, entity_id)
    }

    /// The component of type `T` of the live entity `entity_id`: `Some` exactly when
    /// it has one.
    pub fn get_component_of<T: 'static>(&self, key: &TypeKey<T>, entity_id: EntityId) -> (r: Option<&T>)
        requires
            self.wf(),
        ensures
            (r is Some) == self@.has(key.id(), entity_id),
    {
        match self.occupied_slot(entity_id) {
            Some(index) => match self.bucket_position(&key.type_id()) {
                Some(b) => {
                    assert(present_of(self.component_buckets@[b as int]@) == self@.presence[b as int]);
                    match &self.component_buckets[b][index] {
                        Some(value) => {
                            assert(self@.has(key.id(), entity_id));
                            value.downcast_ref(key)
                        },
                        None => None,
                    }
                },
                None => None,
            },
            None => None,
        }
    }

    /// Mutable access to the component of type `T` of the live entity `entity_id`;
    /// see [`Universe::get_component_mut_of`].
    pub fn get_component_mut<T: Default + 'static>(&mut self, entity_id: EntityId) -> (r: Option<
        &mut T,
    >)
        requires
            old(self).wf(),
        ensures
            final(self).wf(),
            final(self)@ == old(self)@,
            exists|k: TypeId|
                (r is Some) == #[trigger] old(self)@.has(k, entity_id) && values_kept_except(
                    old(self).contents(),
                    final(self).contents(),
                    old(self)@.key_pos(k),
                    old(self)@.slot_or_none(entity_id),
                ),
    {
        let key = TypeKey::<T>::of();
        self.get_component_mut_of(&key, entity_id)
    }

    /// Mutable access to the component of type `T` of the live entity `entity_id`:
    /// `Some` exactly when it has one. Writing through it changes that value only.
    pub fn get_component_mut_of<T: 'static>(&mut self, key: &TypeKey<T>, entity_id: EntityId) -> (r:
        Option<&mut T>)
        requires
            old(self).wf(),
        ensures
            final(self).wf(),
            final(self)@ == old(self)@,
            (r is Some) == old(self)@.has(key.id(), entity_id),
            values_kept_except(
                old(self).contents(),
                final(self).contents(),
                old(self)@.key_pos(key.id()),
                old(self)@.slot_or_none(entity_id),
            ),
    {
        match self.occupied_slot(entity_id) {
            Some(index) => match self.bucket_position(&key.type_id()) {
                Some(b) => {
                    let ghost pre = self@;
                    assert(present_of(self.component_buckets@[b as int]@) == self@.presence[b as int]);
                    proof {
                        lemma_refill_keeps(self.component_buckets@, self.component_types@, b as int, index as int);
                        lemma_live_slot(pre, entity_id);
                    }
                    held_value_mut(&mut self.component_buckets[b], index, key)
                },
                None => None,
            },
            None => None,
        }
    }

    /// The position of the bucket keyed `key`, if there is one.
    fn bucket_position(&self, key: &TypeId) -> (r: Option<usize>)
        requires
            self.wf(),
        ensures
            r matches Some(b) ==> self@.has_bucket(*key) && b == self@.key_pos(*key) && b
                < self@.keys.len(),
            r is None ==> !self@.has_bucket(*key),
    {
        let n = self.component_types.len();
        let mut b: usize = 0;
        while b < n
            invariant
                self.wf(),
                n == self@.keys.len(),
                b <= n,
                forall|j: int| 0 <= j < b ==> self@.keys[j] != *key,
            decreases n - b,
        {
            if self.component_types[b] == *key {
                proof {
                    lemma_key_pos(self@.keys, *key, b as int);
                }
                return Some(b);
            }
            b += 1;
        }
        None
    }

    /// The position of the bucket keyed `key`, created empty if missing.
    fn bucket_for(&mut self, key: TypeId) -> (r: usize)
        requires
            old(self).wf(),
        ensures
            final(self).wf(),
            final(self)@ == old(self)@.with_bucket(key),
            final(self)@.has_bucket(key),
            r == final(self)@.key_pos(key),
            r < final(self)@.keys.len(),
            values_kept_except(old(self).contents(), final(self).contents(), -1, -1),
    {
        match self.bucket_position(&key) {
            Some(b) => b,
            None => {
                let n = self.slot_owners.len();
                let mut bucket: Vec<Option<KeyedValue>> = Vec::with_capacity(n);
                let mut i: usize = 0;
                while i < n
                    invariant
                        i <= n,
                        bucket@ == Seq::new(i as nat, |j: int| None::<KeyedValue>),
                    decreases n - i,
                {
                    bucket.push_none();
                    assert(Seq::new(i as nat, |j: int| None::<KeyedValue>).push(None) =~= Seq::new(
                        (i + 1) as nat,
                        |j: int| None::<KeyedValue>,
                    ));
                    i += 1;
                }
                assert(present_of(bucket@) =~= Seq::new(n as nat, |j: int| false));
                let b = self.component_types.len();
                let ghost pre = self.component_buckets@;
                self.component_types.push(key);
                self.component_buckets.push(bucket);
                assert(self@ =~= old(self)@.with_bucket(key));
                assert(self@.keys[b as int] == key);
                proof {
                    lemma_key_pos(self@.keys, key, b as int);
                    lemma_with_bucket_wf(old(self)@, key);
                    assert(self.component_buckets@[b as int]@ == bucket@);
                    assert forall|c: int| 0 <= c < pre.len() implies #[trigger] self.component_buckets@[c] == pre[c] by {}
                }
                b
            },
        }
    }

    /// Puts `value` in slot `index` of bucket `b`.
    fn fill_slot(&mut self, b: usize, index: Index, value: KeyedValue)
        requires
            old(self).wf(),
            b < old(self)@.keys.len(),
            index < old(self)@.owners.len(),
            !old(self)@.vacant_slot(index as int),
            value.key() == old(self)@.keys[b as int],
        ensures
            final(self).wf(),
            final(self)@ == (UniverseView {
                presence: old(self)@.presence.update(
                    b as int,
                    old(self)@.presence[b as int].update(index as int, true),
                ),
                ..old(self)@
            }),
            values_kept_except(old(self).contents(), final(self).contents(), b as int, index as int),
    {
        let ghost pre = self@;
        let ghost old_buckets = self.component_buckets@;
        assert(present_of(self.component_buckets@[b as int]@) == self@.presence[b as int]);
        self.component_buckets[b].set(index, Some(value));
        assert(present_of(self.component_buckets@[b as int]@) =~= pre.presence[b as int].update(
            index as int,
            true,
        ));
        assert(self@.presence =~= pre.presence.update(
            b as int,
            pre.presence[b as int].update(index as int, true),
        ));
        assert(self@ =~= (UniverseView {
            presence: pre.presence.update(b as int, pre.presence[b as int].update(index as int, true)),
            ..pre
        }));
        assert forall|c: int| 0 <= c < old_buckets.len() && c != b implies #[trigger] self.component_buckets@[c] == old_buckets[c] by {}
    }

    /// Appends an empty slot to every bucket.
    fn grow_buckets(&mut self)
        requires
            old(self).component_buckets@.len() == old(self).component_types@.len(),
        ensures
            final(self).component_buckets@.len() == old(self).component_buckets@.len(),
            final(self).component_types@ == old(self).component_types@,
            final(self).next_entity_id == old(self).next_entity_id,
            final(self).entity_id_records@ == old(self).entity_id_records@,
            final(self).slot_owners@ == old(self).slot_owners@,
            final(self)@.presence == old(self)@.presence.map_values(|p: Seq<bool>| p.push(false)),
            final(self).contents() == old(self).contents().map_values(
                |c: Seq<Option<KeyedValue>>| c.push(None),
            ),
            tags_match(old(self).component_buckets@, old(self).component_types@) ==> tags_match(
                final(self).component_buckets@,
                final(self).component_types@,
            ),
    {
        let n = self.component_buckets.len();
        let mut b: usize = 0;
        while b < n
            invariant
                n == self.component_buckets@.len(),
                n == old(self).component_buckets@.len(),
                b <= n,
                self.component_types@ == old(self).component_types@,
                self.next_entity_id == old(self).next_entity_id,
                self.entity_id_records@ == old(self).entity_id_records@,
                self.slot_owners@ == old(self).slot_owners@,
                forall|j: int|
                    0 <= j < b ==> #[trigger] present_of(self.component_buckets@[j]@) == present_of(
                        old(self).component_buckets@[j]@,
                    ).push(false),
                forall|j: int|
                    0 <= j < b ==> #[trigger] self.component_buckets@[j]@ == old(
                        self,
                    ).component_buckets@[j]@.push(None),
                forall|j: int|
                    b <= j < n ==> #[trigger] self.component_buckets@[j] == old(
                        self,
                    ).component_buckets@[j],
            decreases n - b,
        {
            self.component_buckets[b].push_none();
            b += 1;
        }
        assert(self@.presence =~= old(self)@.presence.map_values(|p: Seq<bool>| p.push(false)));
        assert(self.contents() =~= old(self).contents().map_values(
            |c: Seq<Option<KeyedValue>>| c.push(None),
        ));
        let ghost bs = self.component_buckets@;
        let ghost ob = old(self).component_buckets@;
        assert(tags_match(ob, old(self).component_types@) ==> tags_match(bs, self.component_types@)) by {
            if tags_match(ob, old(self).component_types@) {
                assert forall|c: int, j: int| 0 <= c < bs.len() && 0 <= j < bs[c]@.len() implies (
                    #[trigger] bs[c]@[j] matches Some(v) ==> v.key() == self.component_types@[c]) by {
                    if j < ob[c]@.len() {
                        assert(bs[c]@[j] == ob[c]@[j]);
                    }
                }
            }
        }
    }
}

/// After removing `e`, `e` names no live entity and has no component.
pub proof fn lemma_removed_entity_is_gone(v: UniverseView, e: EntityId)
    requires
        v.wf(),
    ensures
        !v.removed(e).contains(e),
        forall|k: TypeId| !#[trigger] v.removed(e).has(k, e),
{
}

/// Removing an entity a second time, or removing an identifier that names no live
/// entity, changes nothing.
pub proof fn lemma_remove_idempotent(v: UniverseView, e: EntityId)
    requires
        v.wf(),
    ensures
        v.removed(e).removed(e) == v.removed(e),
        !v.contains(e) ==> v.removed(e) == v,
{
}

/// Creating an entity after removing `e1` reuses a slot: the new identifier differs
/// from `e1`, `e1` stays unknown, and the new entity is live with no component, so
/// nothing of `e1` is visible through it.
pub proof fn lemma_slot_reuse(v: UniverseView, e1: EntityId)
    requires
        v.wf(),
        v.contains(e1),
        v.next_id < usize::MAX,
    ensures
        ({
            let w = v.removed(e1);
            let c = w.created();
            let e2 = w.next_id;
            &&& e2 != e1
            &&& c.slot_count() == v.slot_count()
            &&& !c.contains(e1)
            &&& c.contains(e2)
            &&& forall|k: TypeId| !#[trigger] c.has(k, e2)
        }),
{
    let w = v.removed(e1);
    lemma_removed_wf(v, e1);
    lemma_created_wf(w);
    assert(v.records.contains_key(e1));
    let s = v.slot(e1);
    assert(w.owners[s] == e1);
    assert(w.vacant_slot(s));
    lemma_first_vacant(w, 0);
}

/// Attaching the component keyed `k` to `e` changes the presence of no other
/// (key, entity) pair.
pub proof fn lemma_attach_is_local(v: UniverseView, k: TypeId, e: EntityId, k2: TypeId, e2: EntityId)
    requires
        v.wf(),
        k2 != k || e2 != e,
    ensures
        v.attached(k, e).has(k2, e2) == v.has(k2, e2),
{
    let w = v.with_bucket(k);
    lemma_with_bucket_wf(v, k);
    if !v.has_bucket(k) {
        if v.has_bucket(k2) {
            let p = key_position(v.keys, k2);
            assert(0 <= p < v.keys.len() && v.keys[p] == k2);
            assert(w.keys[p] == k2);
            lemma_key_pos(w.keys, k2, p);
            assert(w.has_bucket(k2));
        } else if k2 != k {
            assert(!w.has_bucket(k2)) by {
                if w.has_bucket(k2) {
                    let p = choose|p: int| 0 <= p < w.keys.len() && w.keys[p] == k2;
                    assert(p < v.keys.len());
                    assert(v.keys.contains(k2));
                }
            }
        } else {
            let p = v.keys.len() as int;
            assert(w.keys[p] == k);
            lemma_key_pos(w.keys, k, p);
        }
    }
    if w.has_bucket(k) && w.contains(e) && w.has_bucket(k2) && w.contains(e2) {
        let p = w.key_pos(k);
        let p2 = w.key_pos(k2);
        assert(0 <= p < w.keys.len() && w.keys[p] == k);
        assert(0 <= p2 < w.keys.len() && w.keys[p2] == k2);
        assert(w.records.contains_key(e) && w.records.contains_key(e2));
        if e2 != e {
            assert(w.slot(e) != w.slot(e2));
        }
    }
}

/// Attaching a component to a live entity makes it present there.
pub proof fn lemma_attach_then_has(v: UniverseView, k: TypeId, e: EntityId)
    requires
        v.wf(),
        v.contains(e),
    ensures
        v.attached(k, e).has(k, e),
{
    let w = v.with_bucket(k);
    lemma_with_bucket_wf(v, k);
    if !v.has_bucket(k) {
        let p = v.keys.len() as int;
        assert(w.keys[p] == k);
        lemma_key_pos(w.keys, k, p);
    }
    let p = w.key_pos(k);
    assert(0 <= p < w.keys.len() && w.keys[p] == k);
    assert(w.records.contains_key(e));
    assert(w.presence[p].len() == w.owners.len());
}

/// Attaching a component keyed `a` to `e1` and one keyed `b` to `e2`, for distinct
/// keys and distinct entities that had no component, leaves `a` absent from `e2` and
/// `b` absent from `e1`, while each entity has what was attached to it.
pub proof fn lemma_cross_entity_isolation(v: UniverseView, a: TypeId, b: TypeId, e1: EntityId, e2: EntityId)
    requires
        v.wf(),
        a != b,
        e1 != e2,
        v.contains(e1),
        v.contains(e2),
        forall|k: TypeId| !#[trigger] v.has(k, e1),
        forall|k: TypeId| !#[trigger] v.has(k, e2),
    ensures
        ({
            let s = v.attached(a, e1).attached(b, e2);
            &&& !s.has(a, e2)
            &&& !s.has(b, e1)
            &&& s.has(a, e1)
            &&& s.has(b, e2)
        }),
{
    let u = v.attached(a, e1);
    lemma_attached_wf(v, a, e1);
    lemma_attach_is_local(v, a, e1, a, e2);
    lemma_attach_is_local(v, a, e1, b, e1);
    lemma_attach_then_has(v, a, e1);
    lemma_attach_is_local(u, b, e2, a, e2);
    lemma_attach_is_local(u, b, e2, b, e1);
    lemma_attach_is_local(u, b, e2, a, e1);
    lemma_attached_keeps_entities(v, a, e1);
    lemma_attach_then_has(u, b, e2);
}

/// Attaching a component keeps a well-formed state well-formed.
pub proof fn lemma_attached_wf(v: UniverseView, k: TypeId, e: EntityId)
    requires
        v.wf(),
    ensures
        v.attached(k, e).wf(),
{
    let w = v.with_bucket(k);
    lemma_with_bucket_wf(v, k);
    let f = w.filled(k, e);
    if w.has_bucket(k) && w.contains(e) {
        let p = w.key_pos(k);
        assert(0 <= p < w.keys.len() && w.keys[p] == k);
        lemma_live_slot(w, e);
        assert forall|b: int| 0 <= b < f.presence.len() implies #[trigger] f.presence[b].len()
            == f.owners.len() by {
            assert(w.presence[b].len() == w.owners.len());
        }
        assert forall|b: int, j: int|
            0 <= b < f.presence.len() && 0 <= j < f.owners.len() && f.vacant_slot(j)
            implies !#[trigger] f.presence[b][j] by {
            assert(!w.presence[b][j]);
        }
    }
}

/// Attaching a component leaves the entities and their slots as they were.
proof fn lemma_attached_keeps_entities(v: UniverseView, k: TypeId, e: EntityId)
    ensures
        v.attached(k, e).records == v.records,
        v.attached(k, e).owners == v.owners,
        v.attached(k, e).next_id == v.next_id,
{
}

/// Creating an entity keeps every live entity live, in its slot, with the
/// components it had.
pub proof fn lemma_created_keeps_others(v: UniverseView)
    requires
        v.wf(),
        v.next_id < usize::MAX,
    ensures
        forall|e: EntityId| #[trigger]
            v.contains(e) ==> v.created().contains(e) && v.created().slot(e) == v.slot(e),
        forall|k: TypeId, e: EntityId|
            e != v.next_id ==> #[trigger] v.created().has(k, e) == v.has(k, e),
{
    let c = v.created();
    lemma_first_vacant(v, 0);
    assert forall|e: EntityId| #[trigger] v.contains(e) implies c.contains(e) && c.slot(e) == v.slot(e) by {
        assert(v.records.contains_key(e));
        if let Some(i) = v.first_vacant_from(0) {
            assert(v.records.contains_key(v.owners[i]));
            assert(v.owners[i] != e);
        }
    }
    assert forall|k: TypeId, e: EntityId| e != v.next_id implies #[trigger] c.has(k, e) == v.has(k, e) by {
        match v.first_vacant_from(0) {
            Some(i) => {
                assert(v.records.contains_key(v.owners[i]));
                if v.contains(e) {
                    assert(v.owners[i] != e);
                }
            },
            None => {
                if v.contains(e) && v.has_bucket(k) {
                    let p = v.key_pos(k);
                    assert(0 <= p < v.keys.len() && v.keys[p] == k);
                    assert(v.records.contains_key(e));
                    assert(v.presence[p].len() == v.owners.len());
                    assert(c.presence[p] == v.presence[p].push(false));
                }
            },
        }
    }
}

/// Removing `e` leaves every other identifier as live as it was, with the
/// components it had.
pub proof fn lemma_removed_keeps_others(v: UniverseView, e: EntityId)
    requires
        v.wf(),
    ensures
        forall|e2: EntityId| e2 != e ==> #[trigger] v.removed(e).contains(e2) == v.contains(e2),
        forall|k: TypeId, e2: EntityId|
            e2 != e ==> #[trigger] v.removed(e).has(k, e2) == v.has(k, e2),
{
    let r = v.removed(e);
    assert forall|k: TypeId, e2: EntityId| e2 != e implies #[trigger] r.has(k, e2) == v.has(k, e2) by {
        if v.contains(e) && v.contains(e2) && v.has_bucket(k) {
            let p = v.key_pos(k);
            assert(0 <= p < v.keys.len() && v.keys[p] == k);
            assert(v.records.contains_key(e) && v.records.contains_key(e2));
            assert(v.slot(e) != v.slot(e2));
        }
    }
}

/// Creating an entity keeps a well-formed state well-formed, and the new entity
/// is live with no component.
pub proof fn lemma_created_wf(v: UniverseView)
    requires
        v.wf(),
        v.next_id < usize::MAX,
    ensures
        v.created().wf(),
        v.created().contains(v.next_id),
        forall|k: TypeId| !#[trigger] v.created().has(k, v.next_id),
{
    let c = v.created();
    match v.first_vacant_from(0) {
        Some(i) => {
            lemma_first_vacant(v, 0);
            assert(v.records.contains_key(v.owners[i]));
            assert forall|e: EntityId| #[trigger] c.records.contains_key(e) implies {
                &&& e < c.next_id
                &&& c.records[e].index() < c.owners.len()
                &&& c.owners[c.records[e].index() as int] == e
            } by {
                if e != v.next_id {
                    assert(v.records.contains_key(e));
                }
            }
            assert forall|j: int| 0 <= j < c.owners.len() implies {
                &&& c.records.contains_key(#[trigger] c.owners[j])
                &&& c.records[c.owners[j]].index() == j
            } by {
                if j != i {
                    assert(v.records.contains_key(v.owners[j]));
                    assert(v.owners[j] != v.owners[i]);
                }
            }
            assert forall|b: int, j: int|
                0 <= b < c.presence.len() && 0 <= j < c.owners.len() && c.vacant_slot(j)
                implies !#[trigger] c.presence[b][j] by {
                if j != i {
                    assert(v.records.contains_key(v.owners[j]));
                    assert(v.owners[j] != v.owners[i]);
                    assert(v.vacant_slot(j));
                }
            }
            assert forall|k: TypeId| !#[trigger] c.has(k, v.next_id) by {
                if c.has_bucket(k) {
                    let b = c.key_pos(k);
                    assert(v.vacant_slot(i));
                    assert(!v.presence[b][i]);
                }
            }
        },
        None => {
            assert forall|e: EntityId| #[trigger] c.records.contains_key(e) implies {
                &&& e < c.next_id
                &&& c.records[e].index() < c.owners.len()
                &&& c.owners[c.records[e].index() as int] == e
            } by {
                if e != v.next_id {
                    assert(v.records.contains_key(e));
                }
            }
            assert forall|j: int| 0 <= j < c.owners.len() implies {
                &&& c.records.contains_key(#[trigger] c.owners[j])
                &&& c.records[c.owners[j]].index() == j
            } by {
                if j < v.owners.len() {
                    assert(v.records.contains_key(v.owners[j]));
                }
            }
            assert forall|b: int| 0 <= b < c.presence.len() implies #[trigger] c.presence[b].len()
                == c.owners.len() by {
                assert(v.presence[b].len() == v.owners.len());
            }
            assert forall|b: int, j: int|
                0 <= b < c.presence.len() && 0 <= j < c.owners.len() && c.vacant_slot(j)
                implies !#[trigger] c.presence[b][j] by {
                if j < v.owners.len() {
                    assert(v.records.contains_key(v.owners[j]));
                    assert(v.vacant_slot(j));
                }
            }
            assert forall|k: TypeId| !#[trigger] c.has(k, v.next_id) by {
                if c.has_bucket(k) {
                    let b = c.key_pos(k);
                    assert(c.presence[b] == v.presence[b].push(false));
                }
            }
        },
    }
}

/// What `first_vacant_from` returns is a vacant slot at or after `i`, with no
/// vacant slot between them; `None` means there is no vacant slot from `i` on.
proof fn lemma_first_vacant(v: UniverseView, i: int)
    requires
        0 <= i,
    ensures
        v.first_vacant_from(i) matches Some(j) ==> i <= j < v.owners.len() && v.vacant_slot(j)
            && forall|l: int| i <= l < j ==> !#[trigger] v.vacant_slot(l),
        v.first_vacant_from(i) is None ==> forall|l: int|
            i <= l < v.owners.len() ==> !#[trigger] v.vacant_slot(l),
    decreases v.owners.len() - i,
{
    if i < v.owners.len() && !v.vacant_slot(i) {
        lemma_first_vacant(v, i + 1);
    }
}

/// Which slots of each bucket hold a value.
closed spec fn presence_of_buckets(buckets: Seq<Vec<Option<KeyedValue>>>) -> Seq<Seq<bool>> {
    buckets.map_values(|v: Vec<Option<KeyedValue>>| present_of(v@))
}

/// Replacing the bucket at position `b` by one that differs at most in slot `i`,
/// where it still holds a value of the bucket's key, keeps every presence, keeps
/// the keys matching, and keeps every other stored value.
proof fn lemma_refill_keeps(buckets: Seq<Vec<Option<KeyedValue>>>, keys: Seq<TypeId>, b: int, i: int)
    requires
        0 <= b < buckets.len(),
        0 <= i < buckets[b]@.len(),
        buckets.len() == keys.len(),
        tags_match(buckets, keys),
    ensures
        forall|nb: Vec<Option<KeyedValue>>|
            refilled(buckets[b]@, nb@, i, keys[b]) ==> {
                &&& #[trigger] presence_of_buckets(buckets.update(b, nb)) == presence_of_buckets(buckets)
                &&& tags_match(buckets.update(b, nb), keys)
                &&& values_kept_except(contents_of(buckets), contents_of(buckets.update(b, nb)), b, i)
                &&& contents_of(buckets.update(b, nb)).len() == buckets.len()
            },
{
    assert forall|nb: Vec<Option<KeyedValue>>|
        refilled(buckets[b]@, nb@, i, keys[b]) implies {
            &&& #[trigger] presence_of_buckets(buckets.update(b, nb)) == presence_of_buckets(buckets)
            &&& tags_match(buckets.update(b, nb), keys)
            &&& values_kept_except(contents_of(buckets), contents_of(buckets.update(b, nb)), b, i)
            &&& contents_of(buckets.update(b, nb)).len() == buckets.len()
        } by {
        let nbs = buckets.update(b, nb);
        assert(present_of(nb@) =~= present_of(buckets[b]@));
        assert(presence_of_buckets(nbs) =~= presence_of_buckets(buckets));
        assert forall|c: int, j: int|
            0 <= c < nbs.len() && 0 <= j < nbs[c]@.len() implies (#[trigger] nbs[c]@[j] matches Some(
                v,
            ) ==> v.key() == keys[c]) by {
            if c != b {
                assert(nbs[c] == buckets[c]);
            } else if j != i {
                assert(nb@[j] == buckets[b]@[j]);
            }
        }
    }
}

/// `post` is `pre` with slot `i` still holding a value of identity `k` when `pre`
/// held one there, and unchanged otherwise.
spec fn refilled(pre: Seq<Option<KeyedValue>>, post: Seq<Option<KeyedValue>>, i: int, k: TypeId) -> bool {
    &&& post.len() == pre.len()
    &&& forall|j: int| 0 <= j < pre.len() && j != i ==> #[trigger] post[j] == pre[j]
    &&& (post[i] is Some) == (pre[i] is Some)
    &&& (post[i] matches Some(v) ==> v.key() == k)
}

/// Mutable access to the value of type `T` held in slot `index`, if any. Whatever
/// is written through it, the slot keeps holding a value of `T`'s identity.
fn held_value_mut<'a, T: 'static>(
    bucket: &'a mut Vec<Option<KeyedValue>>,
    index: Index,
    key: &TypeKey<T>,
) -> (r: Option<&'a mut T>)
    requires
        index < old(bucket)@.len(),
        old(bucket)@[index as int] matches Some(v) ==> v.key() == key.id(),
    ensures
        (r is Some) == (old(bucket)@[index as int] is Some),
        refilled(old(bucket)@, final(bucket)@, index as int, key.id()),
{
    let ghost ob = bucket@;
    let slot = &mut bucket[index];
    match slot {
        Some(value) => {
            value.downcast_mut(key)
        },
        None => {
            assert(refilled(ob, ob, index as int, key.id()));
            None
        },
    }
}

/// The slot of a live entity is not vacant.
proof fn lemma_live_slot(v: UniverseView, e: EntityId)
    requires
        v.wf(),
        v.contains(e),
    ensures
        0 <= v.slot(e) < v.owners.len(),
        !v.vacant_slot(v.slot(e)),
{
    assert(v.records.contains_key(e));
}

/// The values stored in each bucket.
pub closed spec fn contents_of(buckets: Seq<Vec<Option<KeyedValue>>>) -> Seq<Seq<Option<KeyedValue>>> {
    buckets.map_values(|v: Vec<Option<KeyedValue>>| v@)
}

/// Every value in the bucket at position `b` has the identity `keys[b]`.
pub closed spec fn tags_match(buckets: Seq<Vec<Option<KeyedValue>>>, keys: Seq<TypeId>) -> bool {
    forall|b: int, i: int|
        0 <= b < buckets.len() && 0 <= i < buckets[b]@.len() ==> (#[trigger] buckets[b]@[i] matches Some(
            v,
        ) ==> v.key() == keys[b])
}

/// `post` keeps every bucket of `pre`, with its length and its values, except
/// perhaps the value in slot `i` of bucket `b`; the buckets that `post` adds hold
/// nothing, except perhaps there.
pub open spec fn values_kept_except(
    pre: Seq<Seq<Option<KeyedValue>>>,
    post: Seq<Seq<Option<KeyedValue>>>,
    b: int,
    i: int,
) -> bool {
    &&& pre.len() <= post.len()
    &&& forall|c: int| 0 <= c < pre.len() ==> #[trigger] post[c].len() == pre[c].len()
    &&& forall|c: int, j: int|
        0 <= c < pre.len() && 0 <= j < pre[c].len() && !(c == b && j == i) ==> #[trigger] post[c][j]
            == pre[c][j]
    &&& forall|c: int, j: int|
        pre.len() <= c < post.len() && 0 <= j < post[c].len() && !(c == b && j == i)
            ==> #[trigger] post[c][j] is None
}

/// A position at which `k` stands in `keys`.
pub open spec fn key_position(keys: Seq<TypeId>, k: TypeId) -> int {
    choose|b: int| 0 <= b < keys.len() && keys[b] == k
}

/// In a sequence without duplicates, `key_position` finds the one position of a key.
pub(crate) proof fn lemma_key_pos(keys: Seq<TypeId>, k: TypeId, b: int)
    requires
        keys.no_duplicates(),
        0 <= b < keys.len(),
        keys[b] == k,
    ensures
        key_position(keys, k) == b,
{
    let c = key_position(keys, k);
    assert(0 <= c < keys.len() && keys[c] == k);
}

/// Adding an empty bucket keeps a well-formed state well-formed.
proof fn lemma_with_bucket_wf(v: UniverseView, k: TypeId)
    requires
        v.wf(),
    ensures
        v.with_bucket(k).wf(),
{
    let w = v.with_bucket(k);
    if !v.has_bucket(k) {
        assert forall|b: int| 0 <= b < w.presence.len() implies #[trigger] w.presence[b].len()
            == w.owners.len() by {
            if b < v.presence.len() {
                assert(v.presence[b].len() == v.owners.len());
            }
        }
        assert forall|b: int, j: int|
            0 <= b < w.presence.len() && 0 <= j < w.owners.len() && w.vacant_slot(j)
            implies !#[trigger] w.presence[b][j] by {
            if b < v.presence.len() {
                assert(!v.presence[b][j]);
            }
        }
    }
}

/// Detaching a component keeps a well-formed state well-formed.
proof fn lemma_detached_wf(v: UniverseView, k: TypeId, e: EntityId)
    requires
        v.wf(),
    ensures
        v.detached(k, e).wf(),
{
    let d = v.detached(k, e);
    if v.has_bucket(k) && v.contains(e) {
        let p = v.key_pos(k);
        assert(0 <= p < v.keys.len() && v.keys[p] == k);
        assert forall|b: int| 0 <= b < d.presence.len() implies #[trigger] d.presence[b].len()
            == d.owners.len() by {
            assert(v.presence[b].len() == v.owners.len());
        }
        assert forall|b: int, j: int|
            0 <= b < d.presence.len() && 0 <= j < d.owners.len() && d.vacant_slot(j)
            implies !#[trigger] d.presence[b][j] by {
            assert(!v.presence[b][j]);
        }
    }
}

/// Removing an entity keeps a well-formed state well-formed.
pub proof fn lemma_removed_wf(v: UniverseView, e: EntityId)
    requires
        v.wf(),
    ensures
        v.removed(e).wf(),
{
    let r = v.removed(e);
    if v.contains(e) {
        let s = v.slot(e);
        assert forall|j: int| 0 <= j < r.owners.len() implies {
            &&& r.records.contains_key(#[trigger] r.owners[j])
            &&& r.records[r.owners[j]].index() == j
        } by {
            assert(v.records.contains_key(v.owners[j]));
        }
        assert forall|b: int| 0 <= b < r.presence.len() implies #[trigger] r.presence[b].len()
            == r.owners.len() by {
            assert(v.presence[b].len() == v.owners.len());
        }
        assert forall|b: int, j: int|
            0 <= b < r.presence.len() && 0 <= j < r.owners.len() && r.vacant_slot(j)
            implies !#[trigger] r.presence[b][j] by {
            assert(v.records.contains_key(v.owners[j]));
            if j != s {
                assert(v.owners[j] != e);
                assert(v.vacant_slot(j));
            }
        }
    }
}

} // verus!

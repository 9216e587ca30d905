//! A registry that holds at most one value of each type.

use crate::erased::KeyedValue;
use crate::type_key::TypeKey;
use crate::universe::{key_position, lemma_key_pos};
use std::any::TypeId;
use vstd::prelude::*;

verus! {

/// A type that can be stored in a [`ResourceManager`]: every default-constructible
/// `'static` type is one.
pub trait Resource {

}

impl<T: Default + 'static> Resource for T {

}

/// Why a resource could not be added.
#[derive(Debug, Clone, Copy, PartialEq, Eq, Structural)]
pub enum ResourceCreationError {
    /// A resource of that type is already registered.
    AlreadyRegistered,
}

/// What adding a resource keyed `k` to a registry holding `registered` returns.
pub open spec fn add_outcome(registered: Set<TypeId>, k: TypeId) -> Result<(), ResourceCreationError> {
    if registered.contains(k) {
        Err(ResourceCreationError::AlreadyRegistered)
    } else {
        Ok(())
    }
}

/// Holds one instance per resource type, keyed by the type's identity.
///
/// Its view is the set of identities of the registered types; `instance(k)` is
/// the stored value of the type with identity `k`.
pub struct ResourceManager {
    keys: Vec<TypeId>,
    values: Vec<KeyedValue>,
}

impl View for ResourceManager {
    type V = Set<TypeId>;

    closed spec fn view(&self) -> Set<TypeId> {
        self.keys@.to_set()
    }
}

impl Default for ResourceManager {
    fn default() -> (r: Self)
        ensures
            r.wf(),
            r@ == Set::<TypeId>::empty(),
    {
        ResourceManager::new()
    }
}

impl ResourceManager {
    /// Keys are distinct and each has its instance, of the key's type.
    pub closed spec fn wf(&self) -> bool {
        &&& self.keys@.no_duplicates()
        &&& self.keys@.len() == self.values@.len()
        &&& forall|i: int| 0 <= i < self.keys@.len() ==> #[trigger] self.values@[i].key() == self.keys@[i]
    }

    /// The stored instance of the type with identity `k`, when one is registered.
    pub closed spec fn instance(&self, k: TypeId) -> KeyedValue {
        self.values@[key_position(self.keys@, k)]
    }

    /// Every instance registered in `self` under a key other than `k` is still
    /// registered in `post`, unchanged.
    pub open spec fn keeps_others(&self, post: &ResourceManager, k: TypeId) -> bool {
        forall|k2: TypeId|
            k2 != k && #[trigger] self@.contains(k2) ==> post@.contains(k2) && post.instance(k2)
                == self.instance(k2)
    }

    /// An empty registry.
    pub fn new() -> (r: Self)
        ensures
            r.wf(),
            r@ == Set::<TypeId>::empty(),
    {
        let r = ResourceManager { keys: Vec::new(), values: Vec::new() };
        assert(r@ =~= Set::<TypeId>::empty());
        r
    }

    /// Registers `T::default()`, replacing any instance of `T` already there.
    pub fn with_resource<T: Default + 'static>(self) -> (r: Self)
        requires
            self.wf(),
        ensures
            r.wf(),
            exists|k: TypeId| r@ == #[trigger] self@.insert(k) && self.keeps_others(&r, k),
    {
        let mut manager = self;
        let key = TypeKey::<T>::of();
        manager.put(key.type_id(), KeyedValue::new(&key, T::default()));
        manager
    }

    /// Registers `T::default()` unless an instance of `T` is already registered;
    /// see [`ResourceManager::add_resource_of`].
    pub fn add_resource<T: Default + 'static>(&mut self) -> (r: Result<(), ResourceCreationError>)
        requires
            old(self).wf(),
        ensures
            final(self).wf(),
            exists|k: TypeId|
                r == #[trigger] add_outcome(old(self)@, k) && final(self)@ == old(self)@.insert(k)
                    && old(self).keeps_others(final(self), k) && (r is Err ==> final(self).instance(k)
                    == old(self).instance(k)),
    {
        let key = TypeKey::<T>::of();
        self.add_resource_of(&key)
    }

    /// Registers `T::default()` under `key` unless an instance of `T` is already
    /// registered, in which case nothing changes and `AlreadyRegistered` is returned.
    pub fn add_resource_of<T: Default + 'static>(&mut self, key: &TypeKey<T>) -> (r: Result<
        (),
        ResourceCreationError,
    >)
        requires
            old(self).wf(),
        ensures
            final(self).wf(),
            r == add_outcome(old(self)@, key.id()),
            final(self)@ == old(self)@.insert(key.id()),
            old(self).keeps_others(final(self), key.id()),
            r is Err ==> final(self).instance(key.id()) == old(self).instance(key.id()),
    {
        if self.contains_resource_of(&key.type_id()) {
            assert(old(self)@.insert(key.id()) =~= old(self)@);
            return Err(ResourceCreationError::AlreadyRegistered);
        }
        self.put(key.type_id(), KeyedValue::new(key, T::default()));
        Ok(())
    }

    /// Checks whether a resource with identity `key` is registered.
    pub fn contains_resource_of(&self, key: &TypeId) -> (r: bool)
        requires
            self.wf(),
        ensures
            r == self@.contains(*key),
    {
        self.position(key).is_some()
    }

    /// The registered instance of `T`, if any; see [`ResourceManager::get_resource_of`].
    pub fn get_resource<T: Default + 'static>(&self) -> (r: Option<&T>)
        requires
            self.wf(),
        ensures
            exists|k: TypeId| (r is Some) == #[trigger] self@.contains(k),
    {
        let key = TypeKey::<T>::of();
        self.get_resource_of(&key)
    }

    /// The registered instance of `T`: `Some` exactly when one is registered.
    pub fn get_resource_of<T: 'static>(&self, key: &TypeKey<T>) -> (r: Option<&T>)
        requires
            self.wf(),
        ensures
            (r is Some) == self@.contains(key.id()),
    {
        match self.position(&key.type_id()) {
            Some(i) => self.values[i].downcast_ref(key),
            None => None,
        }
    }

    /// Mutable access to the registered instance of `T`, if any; see
    /// [`ResourceManager::get_resource_mut_of`].
    pub fn get_resource_mut<T: Default + 'static>(&mut self) -> (r: Option<&mut T>)
        requires
            old(self).wf(),
        ensures
            final(self).wf(),
            final(self)@ == old(self)@,
            exists|k: TypeId|
                (r is Some) == #[trigger] old(self)@.contains(k) && old(self).keeps_others(
                    final(self),
                    k,
                ),
    {
        let key = TypeKey::<T>::of();
        self.get_resource_mut_of(&key)
    }

    /// Mutable access to the registered instance of `T`: `Some` exactly when one is
    /// registered. Writing through it changes that instance only.
    pub fn get_resource_mut_of<T: 'static>(&mut self, key: &TypeKey<T>) -> (r: Option<&mut T>)
        requires
            old(self).wf(),
        ensures
            final(self).wf(),
            final(self)@ == old(self)@,
            (r is Some) == old(self)@.contains(key.id()),
            old(self).keeps_others(final(self), key.id()),
    {
        match self.position(&key.type_id()) {
            Some(i) => {
                proof {
                    lemma_key_pos(self.keys@, key.id(), i as int);
                }
                proof {
                    lemma_refresh_keeps(*self, i as int, key.id());
                }
                let r = value_mut(&mut self.values, i, key);
                r
            },
            None => None,
        }
    }

    /// Removes the instance of `T`; see [`ResourceManager::remove_resource_of`].
    pub fn remove_resource<T: Default + 'static>(&mut self)
        requires
            old(self).wf(),
        ensures
            final(self).wf(),
            exists|k: TypeId|
                final(self)@ == #[trigger] old(self)@.remove(k) && old(self).keeps_others(final(self), k),
    {
        let key = TypeKey::<T>::of();
        self.remove_resource_of(&key.type_id());
    }

    /// Removes the instance with identity `key`, dropping it; nothing happens if
    /// there is none.
    pub fn remove_resource_of(&mut self, key: &TypeId)
        requires
            old(self).wf(),
        ensures
            final(self).wf(),
            final(self)@ == old(self)@.remove(*key),
            old(self).keeps_others(final(self), *key),
    {
        if let Some(i) = self.position(key) {
            let ghost pre = self.keys@;
            let ghost prev = self.values@;
            self.keys.remove(i);
            self.values.remove(i);
            proof {
                pre.remove_ensures(i as int);
                pre.unique_seq_to_set();
                assert(self.keys@.no_duplicates());
                self.keys@.unique_seq_to_set();
                assert forall|j: int| 0 <= j < self.keys@.len() implies #[trigger] self.values@[j].key() == self.keys@[j] by {
                    if j < i {
                        assert(self.values@[j] == prev[j] && self.keys@[j] == pre[j]);
                    } else {
                        assert(self.values@[j] == prev[j + 1] && self.keys@[j] == pre[j + 1]);
                    }
                }
                assert forall|k: TypeId| #[trigger] self@.contains(k) <==> old(self)@.remove(*key).contains(k) by {
                    if self@.contains(k) {
                        let j = choose|j: int| 0 <= j < self.keys@.len() && self.keys@[j] == k;
                        if j < i {
                            assert(pre[j] == k);
                        } else {
                            assert(pre[j + 1] == k);
                        }
                    }
                    if old(self)@.remove(*key).contains(k) {
                        let j = choose|j: int| 0 <= j < pre.len() && pre[j] == k;
                        if j < i {
                            assert(self.keys@[j] == k);
                        } else {
                            assert(self.keys@[j - 1] == k);
                        }
                    }
                }
                assert(self@ =~= old(self)@.remove(*key));
                assert forall|k2: TypeId| k2 != *key && #[trigger] old(self)@.contains(k2) implies self@.contains(k2) && self.instance(k2) == old(self).instance(k2) by {
                    let p = choose|p: int| 0 <= p < pre.len() && pre[p] == k2;
                    lemma_key_pos(pre, k2, p);
                    if p < i {
                        assert(self.keys@[p] == k2);
                        lemma_key_pos(self.keys@, k2, p);
                    } else {
                        assert(p != i);
                        assert(self.keys@[p - 1] == k2);
                        lemma_key_pos(self.keys@, k2, p - 1);
                    }
                }
            }
        } else {
            assert(old(self)@.remove(*key) =~= old(self)@);
        }
    }

    /// The position of the instance keyed `key`, if there is one.
    fn position(&self, key: &TypeId) -> (r: Option<usize>)
        requires
            self.wf(),
        ensures
            r matches Some(i) ==> i < self.keys@.len() && self.keys@[i as int] == *key,
            r is None <==> !self@.contains(*key),
    {
        let n = self.keys.len();
        let mut i: usize = 0;
        while i < n
            invariant
                n == self.keys@.len(),
                i <= n,
                forall|j: int| 0 <= j < i ==> self.keys@[j] != *key,
            decreases n - i,
        {
            if self.keys[i] == *key {
                assert(self@.contains(*key)) by {
                    assert(self.keys@[i as int] == *key);
                }
                return Some(i);
            }
            i += 1;
        }
        None
    }

    /// Stores `value` under `key`, replacing what was there.
    fn put(&mut self, key: TypeId, value: KeyedValue)
        requires
            old(self).wf(),
            value.key() == key,
        ensures
            final(self).wf(),
            final(self)@ == old(self)@.insert(key),
            old(self).keeps_others(final(self), key),
    {
        let ghost prev = self.values@;
        match self.position(&key) {
            Some(i) => {
                self.values.set(i, value);
                assert(old(self)@.insert(key) =~= old(self)@);
                proof {
                    assert forall|j: int| 0 <= j < self.keys@.len() implies #[trigger] self.values@[j].key() == self.keys@[j] by {
                        if j != i {
                            assert(self.values@[j] == prev[j]);
                        }
                    }
                    assert forall|k2: TypeId| k2 != key && #[trigger] old(self)@.contains(k2) implies self@.contains(k2) && self.instance(k2) == old(self).instance(k2) by {
                        let p = choose|p: int| 0 <= p < self.keys@.len() && self.keys@[p] == k2;
                        lemma_key_pos(self.keys@, k2, p);
                    }
                }
            },
            None => {
                let ghost pre = self.keys@;
                self.keys.push(key);
                self.values.push(value);
                proof {
                    assert(self.keys@.no_duplicates()) by {
                        assert forall|a: int, b: int|
                            0 <= a < b < self.keys@.len() implies self.keys@[a] != self.keys@[b] by {
                            if b == pre.len() {
                                assert(pre.contains(pre[a]));
                            }
                        }
                    }
                    assert forall|j: int| 0 <= j < self.keys@.len() implies #[trigger] self.values@[j].key() == self.keys@[j] by {
                        if j < pre.len() {
                            assert(self.values@[j] == prev[j]);
                        }
                    }
                    assert(self@ =~= old(self)@.insert(key)) by {
                        assert forall|k: TypeId| #[trigger] self@.contains(k) <==> old(self)@.insert(key).contains(k) by {
                            if self@.contains(k) && k != key {
                                let j = choose|j: int| 0 <= j < self.keys@.len() && self.keys@[j] == k;
                                assert(pre[j] == k);
                            }
                            if old(self)@.contains(k) {
                                let j = choose|j: int| 0 <= j < pre.len() && pre[j] == k;
                                assert(self.keys@[j] == k);
                            }
                            if k == key {
                                assert(self.keys@[pre.len() as int] == key);
                            }
                        }
                    }
                    assert forall|k2: TypeId| k2 != key && #[trigger] old(self)@.contains(k2) implies self@.contains(k2) && self.instance(k2) == old(self).instance(k2) by {
                        let p = choose|p: int| 0 <= p < pre.len() && pre[p] == k2;
                        lemma_key_pos(pre, k2, p);
                        assert(self.keys@[p] == k2);
                        lemma_key_pos(self.keys@, k2, p);
                    }
                }
            },
        }
    }
}

/// `post` is `pre` with at most the value at `i` changed, keeping its identity.
spec fn refreshed(pre: Seq<KeyedValue>, post: Seq<KeyedValue>, i: int) -> bool {
    &&& post.len() == pre.len()
    &&& forall|j: int| 0 <= j < pre.len() && j != i ==> #[trigger] post[j] == pre[j]
    &&& post[i].key() == pre[i].key()
}

/// Refreshing the instance at position `i`, registered under `k`, keeps the
/// registry well formed, keeps its keys, and keeps every other instance.
proof fn lemma_refresh_keeps(pre: ResourceManager, i: int, k: TypeId)
    requires
        pre.wf(),
        0 <= i < pre.keys@.len(),
        pre.keys@[i] == k,
    ensures
        forall|post: ResourceManager|
            post.keys@ == pre.keys@ && #[trigger] refreshed(pre.values@, post.values@, i) ==> {
                &&& post.wf()
                &&& post@ == pre@
                &&& pre.keeps_others(&post, k)
            },
{
    assert forall|post: ResourceManager|
        post.keys@ == pre.keys@ && #[trigger] refreshed(pre.values@, post.values@, i) implies {
            &&& post.wf()
            &&& post@ == pre@
            &&& pre.keeps_others(&post, k)
        } by {
        assert forall|j: int| 0 <= j < post.keys@.len() implies #[trigger] post.values@[j].key() == post.keys@[j] by {
            if j != i {
                assert(post.values@[j] == pre.values@[j]);
            }
        }
        assert forall|k2: TypeId| k2 != k && #[trigger] pre@.contains(k2) implies post@.contains(k2) && post.instance(k2) == pre.instance(k2) by {
            let p = choose|p: int| 0 <= p < pre.keys@.len() && pre.keys@[p] == k2;
            lemma_key_pos(pre.keys@, k2, p);
        }
    }
}

/// Mutable access to `values[i]` as a `T`; `Some` when it has `T`'s identity.
/// Whatever is written through it, the other values and every identity stay.
fn value_mut<'a, T: 'static>(values: &'a mut Vec<KeyedValue>, i: usize, key: &TypeKey<T>) -> (r: Option<&'a mut T>)
    requires
        i < old(values)@.len(),
    ensures
        old(values)@[i as int].key() == key.id() ==> r is Some,
        refreshed(old(values)@, final(values)@, i as int),
{
    let value = &mut values[i];
    value.downcast_mut(key)
}

/// Adding a resource of a type not yet registered succeeds; adding it again then
/// fails with `AlreadyRegistered` and changes nothing; once removed, the type is
/// no longer registered.
pub proof fn lemma_resource_uniqueness(registered: Set<TypeId>, k: TypeId)
    requires
        !registered.contains(k),
    ensures
        add_outcome(registered, k) == Ok::<(), ResourceCreationError>(()),
        add_outcome(registered.insert(k), k) == Err::<(), ResourceCreationError>(
            ResourceCreationError::AlreadyRegistered,
        ),
        registered.insert(k).insert(k) == registered.insert(k),
        !registered.insert(k).remove(k).contains(k),
{
    assert(registered.insert(k).insert(k) =~= registered.insert(k));
}

} // verus!

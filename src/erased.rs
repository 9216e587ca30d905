//! Boxed values of any `'static` type, recovered by a checked cast.

use crate::type_key::TypeKey;
use downcast_rs::Downcast;
use std::any::TypeId;
use vstd::prelude::*;

verus! {

/// Owns one value whose type is known only at run time.
#[verifier::external_body]
pub struct ErasedValue {
    inner: Box<dyn Downcast>,
}

impl ErasedValue {
    /// Relies on downcast_rs's blanket `impl<T: Any> Downcast for T`: any `'static`
    /// value can be boxed as a `dyn Downcast`.
    #[verifier::external_body]
    pub(crate) fn new<T: 'static>(value: T) -> ErasedValue {
        ErasedValue { inner: Box::new(value) }
    }
}

/// A boxed value together with the identity of its type.
///
/// Its only constructor, [`KeyedValue::new`], takes the value and the
/// [`TypeKey`] of the value's type, so `key()` is always the identity of the type
/// of the boxed value. Only that identity is visible to proofs, not the value.
pub struct KeyedValue {
    key: Ghost<TypeId>,
    inner: ErasedValue,
}

impl KeyedValue {
    /// The identity of the type of the boxed value.
    pub closed spec fn key(&self) -> TypeId {
        self.key@
    }

    /// Boxes `value`, tagged with the identity of its type.
    pub fn new<T: 'static>(key: &TypeKey<T>, value: T) -> (r: KeyedValue)
        ensures
            r.key() == key.id(),
    {
        KeyedValue { key: Ghost(key.id()), inner: ErasedValue::new(value) }
    }

    /// Relies on downcast_rs's `Downcast::as_any` and std's `downcast_ref`: the cast
    /// succeeds when the boxed value is a `T`. Since `self.key()` is the identity of
    /// the boxed value's type and `key.id()` that of `T`, equal identities mean the
    /// same type.
    #[verifier::external_body]
    pub fn downcast_ref<T: 'static>(&self, key: &TypeKey<T>) -> (r: Option<&T>)
        ensures
            self.key() == key.id() ==> r is Some,
    {
        (*self.inner.inner).as_any().downcast_ref::<T>()
    }

    /// Relies on downcast_rs's `Downcast::as_any_mut` and std's `downcast_mut`: as
    /// [`KeyedValue::downcast_ref`]; writing through the result changes the boxed
    /// value only, never the type identity.
    #[verifier::external_body]
    pub fn downcast_mut<T: 'static>(&mut self, key: &TypeKey<T>) -> (r: Option<&mut T>)
        ensures
            old(self).key() == key.id() ==> r is Some,
            final(self).key() == old(self).key(),
    {
        (*self.inner.inner).as_any_mut().downcast_mut::<T>()
    }
}

} // verus!

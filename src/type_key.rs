//! The type identity that keys component buckets and resources.

use std::any::TypeId;
use std::marker::PhantomData;
use vstd::prelude::*;

verus! {

#[verifier::external_type_specification]
#[verifier::external_body]
pub struct ExTypeId(TypeId);

/// Relies on `TypeId::of`: it returns the identity of `T`. Nothing is stated of the
/// value; callers only compare it with other identities.
pub assume_specification<T: ?Sized + 'static>[ TypeId::of::<T> ]() -> (r: TypeId);

/// Relies on `TypeId`'s `==`: two identities compare equal exactly when they are
/// the same value.
pub assume_specification[ <TypeId as PartialEq>::eq ](a: &TypeId, b: &TypeId) -> (r: bool)
    ensures
        r == (*a == *b),
;

/// The identity of the type `T`, tied to `T`: the only way to make one is
/// [`TypeKey::of`], which asks `TypeId::of::<T>()`.
pub struct TypeKey<T: 'static> {
    id: TypeId,
    marker: PhantomData<T>,
}

impl<T: 'static> TypeKey<T> {
    /// The identity this key carries.
    pub closed spec fn id(&self) -> TypeId {
        self.id
    }

    /// The key of `T`.
    pub fn of() -> (r: Self) {
        TypeKey { id: TypeId::of::<T>(), marker: PhantomData }
    }

    /// The identity this key carries, as a value.
    pub fn type_id(&self) -> (r: TypeId)
        ensures
            r == self.id(),
    {
        self.id
    }
}

} // verus!

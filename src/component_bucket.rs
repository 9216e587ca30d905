//! The capability that every component bucket offers without its element type.

use crate::Index;
use vstd::prelude::*;

verus! {

/// Which slots of a bucket hold a value.
pub open spec fn present_of<T>(slots: Seq<Option<T>>) -> Seq<bool> {
    slots.map_values(|slot: Option<T>| slot is Some)
}

/// A growable sequence of optional values, one per slot.
pub trait ComponentBucket {
    /// For each slot, whether it holds a value.
    spec fn present(&self) -> Seq<bool>;

    /// Appends one empty slot.
    fn push_none(&mut self)
        ensures
            final(self).present() == old(self).present().push(false),
    ;

    /// Empties the slot at `index`.
    fn remove_component(&mut self, index: Index)
        requires
            index < old(self).present().len(),
        ensures
            final(self).present() == old(self).present().update(index as int, false),
    ;
}

impl<T> ComponentBucket for Vec<Option<T>> {
    open spec fn present(&self) -> Seq<bool> {
        present_of(self@)
    }

    fn push_none(&mut self)
        ensures
            final(self)@ == old(self)@.push(None),
    {
        self.push(None);
        assert(present_of(self@) =~= present_of(old(self)@).push(false));
    }

    fn remove_component(&mut self, index: Index)
        ensures
            final(self)@ == old(self)@.update(index as int, None),
    {
        self.set(index, None);
        assert(present_of(self@) =~= present_of(old(self)@).update(index as int, false));
    }
}

} // verus!

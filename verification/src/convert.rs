//! A vector where a slice is wanted.

use crate::slices;
use crate::thin_vec::ThinVec;
use std::borrow::{Borrow, BorrowMut};
use std::ops::{Deref, DerefMut};
use vstd::prelude::*;

verus! {

impl<T> Deref for ThinVec<T> {
    type Target = [T];

    fn deref(&self) -> (slice: &[T])
        ensures
            slice@ == self@,
    {
        self.as_slice()
    }
}

impl<T> DerefMut for ThinVec<T> {
    fn deref_mut(&mut self) -> (slice: &mut [T])
        ensures
            slice@ == old(self)@,
            final(self)@ == final(slice)@,
            final(self).capacity() == old(self).capacity(),
            final(self).is_allocated() == old(self).is_allocated(),
            final(self).dropped() == old(self).dropped(),
            final(self).forgotten() == old(self).forgotten(),
            old(self).wf() && final(slice)@.len() == old(self)@.len() ==> final(self).wf(),
    {
        self.as_mut_slice()
    }
}

impl<T> Borrow<[T]> for ThinVec<T> {
    fn borrow(&self) -> (slice: &[T])
        ensures
            slices::elements::<T>(slice) == self@,
    {
        self.as_slice()
    }
}

impl<T> BorrowMut<[T]> for ThinVec<T> {
    fn borrow_mut(&mut self) -> (slice: &mut [T])
        ensures
            slices::elements::<T>(slice) == old(self)@,
            final(self)@ == slices::elements::<T>(final(slice)),
            final(self).capacity() == old(self).capacity(),
            final(self).is_allocated() == old(self).is_allocated(),
            final(self).dropped() == old(self).dropped(),
            final(self).forgotten() == old(self).forgotten(),
            old(self).wf() && slices::elements::<T>(final(slice)).len() == old(self)@.len()
                ==> final(self).wf(),
    {
        self.as_mut_slice()
    }
}

impl<T> AsRef<[T]> for ThinVec<T> {
    fn as_ref(&self) -> (slice: &[T])
        ensures
            slice@ == self@,
    {
        self.as_slice()
    }
}

} // verus!

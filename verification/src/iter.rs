//! Going through the elements: taking them out one by one, from both ends, or looking at them.

use crate::thin_vec::ThinVec;
use std::collections::VecDeque;
use vstd::prelude::*;
use vstd::std_specs::iter::IteratorSpec;

verus! {

/// The elements of a vector on their way out. They leave from the front or from the back, and those
/// that are left when the iterator goes are dropped.
pub struct IntoIter<T> {
    rest: VecDeque<T>,
}

impl<T> View for IntoIter<T> {
    type V = Seq<T>;

    /// The elements that are still to come.
    closed spec fn view(&self) -> Seq<T> {
        self.rest@
    }
}

impl<T> Iterator for IntoIter<T> {
    type Item = T;

    /// Takes the first of the elements that are left.
    fn next(&mut self) -> (first: Option<T>)
        ensures
            match first {
                Some(val) => old(self)@.len() > 0 && val == old(self)@[0] && final(self)@ == old(
                    self,
                )@.drop_first(),
                None => old(self)@.len() == 0 && final(self)@ == old(self)@,
            },
    {
        self.rest.pop_front()
    }

    /// How many elements are left: at least, and at most.
    fn size_hint(&self) -> (bounds: (usize, Option<usize>))
        ensures
            bounds.0 == self@.len(),
            bounds.1 == Some(bounds.0),
    {
        let len: usize = self.rest.len();
        (len, Some(len))
    }
}

impl<T> vstd::std_specs::iter::IteratorSpecImpl for IntoIter<T> {
    open spec fn obeys_prophetic_iter_laws(&self) -> bool {
        true
    }

    open spec fn remaining(&self) -> Seq<T> {
        self@
    }

    open spec fn will_return_none(&self) -> bool {
        true
    }

    open spec fn decrease(&self) -> Option<nat> {
        Some(self@.len())
    }

    open spec fn initial_value_relation(&self, init: &Self) -> bool {
        self@ == init@
    }

    open spec fn peek(&self, index: int) -> Option<T> {
        if 0 <= index < self@.len() {
            Some(self@[index])
        } else {
            None
        }
    }
}

impl<T> DoubleEndedIterator for IntoIter<T> {
    /// Takes the last of the elements that are left.
    fn next_back(&mut self) -> (last: Option<T>)
        ensures
            match last {
                Some(val) => old(self)@.len() > 0 && val == old(self)@.last() && final(self)@
                    == old(self)@.drop_last(),
                None => old(self)@.len() == 0 && final(self)@ == old(self)@,
            },
    {
        self.rest.pop_back()
    }
}

impl<T> vstd::std_specs::iter::DoubleEndedIteratorSpecImpl for IntoIter<T> {
    open spec fn peek_back(&self, index: int) -> Option<T> {
        if 0 <= index < self@.len() {
            Some(self@[self@.len() - 1 - index])
        } else {
            None
        }
    }
}

impl<T> IntoIterator for ThinVec<T> {
    type Item = T;

    type IntoIter = IntoIter<T>;

    /// Takes the elements out, first to last.
    fn into_iter(self) -> (iter: IntoIter<T>)
        ensures
            iter@ == self@,
    {
        let mut elements: Vec<T> = self.into_elements();
        let ghost all = elements@;
        let mut rest: VecDeque<T> = VecDeque::with_capacity(elements.len());
        loop
            invariant
                elements@ + rest@ == all,
            ensures
                rest@ == all,
            decreases elements@.len(),
        {
            let ghost before = elements@;
            match elements.pop() {
                Some(val) => {
                    let ghost tail = rest@;
                    rest.push_front(val);
                    assert(before == elements@.push(val));
                    assert(rest@ == seq![val] + tail);
                },
                None => {
                    break;
                },
            }
        }
        IntoIter { rest }
    }
}

impl<'a, T> IntoIterator for &'a ThinVec<T> {
    type Item = &'a T;

    type IntoIter = std::slice::Iter<'a, T>;

    /// Looks at the elements, first to last.
    fn into_iter(self) -> (iter: std::slice::Iter<'a, T>)
        ensures
            iter.remaining() == self@.as_ref(),
            iter.decrease() is Some,
    {
        self.as_slice().iter()
    }
}

/// `std::slice::IterMut`. Contracts speak of it by the references that it has still to hand out.
#[verifier::external_type_specification]
#[verifier::external_body]
#[verifier::reject_recursive_types(T)]
pub struct ExIterMut<'a, T: 'a>(std::slice::IterMut<'a, T>);

/// Calls `<[T]>::iter_mut`, which hands out a reference to each element of the slice, from start to
/// end, and then stops. The contract claims that there is one reference for each element, in order:
/// it starts out as the element, and what it becomes is what the element becomes. The slice keeps
/// its length: its elements can be changed through the iterator, and nothing else can.
#[verifier::external_body]
fn iter_mut<'a, T>(slice: &'a mut [T]) -> (iter: std::slice::IterMut<'a, T>)
    ensures
        iter.obeys_prophetic_iter_laws(),
        iter.decrease() is Some,
        iter.remaining().len() == old(slice)@.len(),
        final(slice)@.len() == old(slice)@.len(),
        forall|i: int| #![trigger iter.remaining()[i]]
            0 <= i < old(slice)@.len() ==> {
                &&& *iter.remaining()[i] == old(slice)@[i]
                &&& *final(iter.remaining()[i]) == final(slice)@[i]
            },
{
    slice.iter_mut()
}

impl<'a, T> IntoIterator for &'a mut ThinVec<T> {
    type Item = &'a mut T;

    type IntoIter = std::slice::IterMut<'a, T>;

    /// Looks at the elements, first to last, and lets them be changed.
    fn into_iter(self) -> (iter: std::slice::IterMut<'a, T>)
        ensures
            iter.obeys_prophetic_iter_laws(),
            iter.decrease() is Some,
            iter.remaining().len() == old(self)@.len(),
            final(self)@.len() == old(self)@.len(),
            forall|i: int| #![trigger iter.remaining()[i]]
                0 <= i < old(self)@.len() ==> {
                    &&& *iter.remaining()[i] == old(self)@[i]
                    &&& *final(iter.remaining()[i]) == final(self)@[i]
                },
            final(self).capacity() == old(self).capacity(),
            final(self).is_allocated() == old(self).is_allocated(),
            final(self).dropped() == old(self).dropped(),
            final(self).forgotten() == old(self).forgotten(),
            old(self).wf() ==> final(self).wf(),
    {
        iter_mut(self.as_mut_slice())
    }
}

/// A range of a vector whose elements are to be taken out.
pub struct Drain<'a, T: 'a> {
    vec: &'a mut ThinVec<T>,
    start: usize,
    end: usize,
}

} // verus!

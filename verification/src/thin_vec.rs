//! The vector itself: its buffer, its invariant, and the operations on single elements and on
//! whole tails.

use crate::departures::Departures;
use crate::layout;
use crate::layout::Header;
use vstd::prelude::*;

verus! {

/// A header, and the elements that it counts.
struct Buffer<T> {
    header: Header,
    data: Vec<T>,
}

/// A vector that keeps its length and its capacity not in itself, but in what it allocates.
///
/// A `ThinVec` holds one pointer and nothing else. It does what `Vec` does, but can be stored where
/// space is scarce, such as inside another vector whose elements are mostly empty.
///
/// An empty vector that was never given room has no buffer at all.
pub struct ThinVec<T> {
    ptr: Option<Box<Buffer<T>>>,
    departures: Departures<T>,
}

impl<T> View for ThinVec<T> {
    type V = Seq<T>;

    /// The elements, in order.
    closed spec fn view(&self) -> Seq<T> {
        match self.ptr {
            Some(buffer) => buffer.data@,
            None => Seq::empty(),
        }
    }
}

impl<T> ThinVec<T> {
    /// The vector has a buffer.
    pub closed spec fn is_allocated(&self) -> bool {
        self.ptr is Some
    }

    /// The capacity, as contracts see it.
    pub closed spec fn spec_capacity(&self) -> usize {
        match self.ptr {
            Some(buffer) => buffer.header.cap,
            None => 0,
        }
    }

    /// The header tells the truth about the buffer: it holds the number of elements, there is room
    /// for at least so many, and a buffer of that capacity can exist.
    pub closed spec fn wf(&self) -> bool {
        match self.ptr {
            Some(buffer) => {
                &&& buffer.header.len == buffer.data@.len()
                &&& buffer.header.len <= buffer.header.cap
                &&& layout::fits::<T>(buffer.header.cap as nat)
            },
            None => true,
        }
    }

    /// The elements that this vector has dropped so far, in the order in which it dropped them.
    pub closed spec fn dropped(&self) -> Seq<T> {
        self.departures.dropped()
    }

    /// The elements that this vector has forgotten so far without dropping them, in that order.
    pub closed spec fn forgotten(&self) -> Seq<T> {
        self.departures.forgotten()
    }

    /// One more element can be taken: there is room, or the next larger buffer can exist.
    pub open spec fn can_push(&self) -> bool {
        self@.len() < self.capacity() || (self@.len() < usize::MAX && layout::fits::<T>(
            layout::next_capacity::<T>(self.capacity() as nat),
        ))
    }

    /// The capacity once one more element has been taken.
    pub open spec fn capacity_after_push(&self) -> nat {
        if self@.len() < self.capacity() {
            self.capacity() as nat
        } else {
            layout::next_capacity::<T>(self.capacity() as nat)
        }
    }

    /// There are never more elements than there is room for, and a buffer of the capacity can exist.
    pub proof fn lemma_len_within_capacity(&self)
        requires
            self.wf(),
        ensures
            self@.len() <= self.capacity(),
            self.is_allocated() ==> layout::fits::<T>(self.capacity() as nat),
            !self.is_allocated() ==> self.capacity() == 0,
    {
    }

    /// What contracts see of a vector is what it holds: the elements, the capacity and whether there
    /// is any are those of its buffer, and what it has let go is what its account says.
    proof fn law_contracts_see_the_buffer(&self)
        ensures
            self.ptr is Some ==> self@ == self.ptr->0.data@,
            self.ptr is None ==> self@ == Seq::<T>::empty(),
            self.ptr is Some ==> self.capacity() == self.ptr->0.header.cap,
            self.ptr is None ==> self.capacity() == 0,
            self.is_allocated() <==> self.ptr is Some,
            self.dropped() == self.departures.dropped(),
            self.forgotten() == self.departures.forgotten(),
    {
    }

    /// An empty vector, which allocates nothing.
    pub fn new() -> (vec: ThinVec<T>)
        ensures
            vec.wf(),
            vec@ == Seq::<T>::empty(),
            vec.capacity() == 0,
            !vec.is_allocated(),
            vec.dropped() == Seq::<T>::empty(),
            vec.forgotten() == Seq::<T>::empty(),
    {
        ThinVec { ptr: None, departures: Departures::none() }
    }

    /// An empty vector with room for `cap` elements.
    pub fn with_capacity(cap: usize) -> (vec: ThinVec<T>)
        requires
            layout::fits::<T>(cap as nat),
        ensures
            vec.wf(),
            vec@ == Seq::<T>::empty(),
            vec.capacity() == cap,
            vec.is_allocated(),
            vec.dropped() == Seq::<T>::empty(),
            vec.forgotten() == Seq::<T>::empty(),
    {
        ThinVec { ptr: Some(buffer_with_capacity(cap)), departures: Departures::none() }
    }

    /// The number of elements.
    pub fn len(&self) -> (len: usize)
        requires
            self.wf(),
        ensures
            len == self@.len(),
    {
        match &self.ptr {
            Some(buffer) => buffer.header.len,
            None => 0,
        }
    }

    /// There are no elements.
    pub fn is_empty(&self) -> (empty: bool)
        requires
            self.wf(),
        ensures
            empty == (self@.len() == 0),
    {
        self.len() == 0
    }

    /// The number of elements for which there is room.
    #[verifier::when_used_as_spec(spec_capacity)]
    pub fn capacity(&self) -> (cap: usize)
        ensures
            cap == self.capacity(),
    {
        match &self.ptr {
            Some(buffer) => buffer.header.cap,
            None => 0,
        }
    }

    /// Sets the length to `len`, and forgets the elements from there on, last to first, without
    /// dropping them.
    pub fn set_len(&mut self, len: usize)
        requires
            old(self).wf(),
            len <= old(self)@.len(),
        ensures
            final(self).wf(),
            final(self)@ == old(self)@.take(len as int),
            final(self).capacity() == old(self).capacity(),
            final(self).is_allocated() == old(self).is_allocated(),
            final(self).dropped() == old(self).dropped(),
            final(self).forgotten() == old(self).forgotten() + old(self)@.skip(len as int).reverse(),
    {
        let ghost s = self@;
        while self.len() > len
            invariant
                self.wf(),
                len <= self@.len() <= s.len(),
                self@ == s.take(self@.len() as int),
                self.capacity() == old(self).capacity(),
                self.is_allocated() == old(self).is_allocated(),
                self.dropped() == old(self).dropped(),
                self.forgotten() == old(self).forgotten() + s.skip(self@.len() as int).reverse(),
            decreases self@.len(),
        {
            if let Some(val) = self.pop() {
                self.departures.forget(val);
            }
        }
    }

    /// Adds an element at the end.
    pub fn push(&mut self, val: T)
        requires
            old(self).wf(),
            old(self).can_push(),
        ensures
            final(self).wf(),
            final(self)@ == old(self)@.push(val),
            final(self).capacity() == old(self).capacity_after_push(),
            final(self).is_allocated(),
            final(self).dropped() == old(self).dropped(),
            final(self).forgotten() == old(self).forgotten(),
    {
        self.reserve_one_more();
        if let Some(buffer) = &mut self.ptr {
            buffer.data.push(val);
            buffer.header.len = buffer.data.len();
        }
    }

    /// Takes the last element away and returns it.
    pub fn pop(&mut self) -> (last: Option<T>)
        requires
            old(self).wf(),
        ensures
            final(self).wf(),
            final(self).capacity() == old(self).capacity(),
            final(self).is_allocated() == old(self).is_allocated(),
            final(self).dropped() == old(self).dropped(),
            final(self).forgotten() == old(self).forgotten(),
            match last {
                Some(val) => old(self)@.len() > 0 && val == old(self)@.last() && final(self)@ == old(
                    self,
                )@.drop_last(),
                None => old(self)@.len() == 0 && final(self)@ == old(self)@,
            },
    {
        match &mut self.ptr {
            Some(buffer) => {
                if buffer.header.len == 0 {
                    return None;
                }
                let last = buffer.data.pop();
                buffer.header.len = buffer.data.len();
                last
            },
            None => None,
        }
    }

    /// Puts an element in front of the one at `idx`, or at the end where `idx` is the length. The
    /// elements from there on move up by one.
    pub fn insert(&mut self, idx: usize, elem: T)
        requires
            old(self).wf(),
            idx <= old(self)@.len(),
            old(self).can_push(),
        ensures
            final(self).wf(),
            final(self)@ == old(self)@.insert(idx as int, elem),
            final(self).capacity() == old(self).capacity_after_push(),
            final(self).is_allocated(),
            final(self).dropped() == old(self).dropped(),
            final(self).forgotten() == old(self).forgotten(),
    {
        // A wrong index ends here, before anything is changed.
        vstd::pervasive::runtime_assert(idx <= self.len());
        self.reserve_one_more();
        if let Some(buffer) = &mut self.ptr {
            buffer.data.insert(idx, elem);
            buffer.header.len = buffer.data.len();
        }
    }

    /// Takes the element at `idx` away and returns it. The elements behind it move down by one.
    pub fn remove(&mut self, idx: usize) -> (val: T)
        requires
            old(self).wf(),
            idx < old(self)@.len(),
        ensures
            final(self).wf(),
            val == old(self)@[idx as int],
            final(self)@ == old(self)@.remove(idx as int),
            final(self).capacity() == old(self).capacity(),
            final(self).is_allocated() == old(self).is_allocated(),
            final(self).dropped() == old(self).dropped(),
            final(self).forgotten() == old(self).forgotten(),
    {
        match &mut self.ptr {
            Some(buffer) => {
                let val = buffer.data.remove(idx);
                buffer.header.len = buffer.data.len();
                val
            },
            None => vstd::pervasive::unreached(),
        }
    }

    /// Takes the element at `idx` away and returns it. The last element takes its place, so the
    /// order changes, but no other element moves.
    pub fn swap_remove(&mut self, idx: usize) -> (val: T)
        requires
            old(self).wf(),
            idx < old(self)@.len(),
        ensures
            final(self).wf(),
            val == old(self)@[idx as int],
            final(self)@ == old(self)@.update(idx as int, old(self)@.last()).drop_last(),
            final(self).capacity() == old(self).capacity(),
            final(self).is_allocated() == old(self).is_allocated(),
            final(self).dropped() == old(self).dropped(),
            final(self).forgotten() == old(self).forgotten(),
    {
        match &mut self.ptr {
            Some(buffer) => {
                let val = buffer.data.swap_remove(idx);
                buffer.header.len = buffer.data.len();
                val
            },
            None => vstd::pervasive::unreached(),
        }
    }

    /// Drops the elements from `len` on, first to last. Where there are no more than `len`, nothing
    /// happens.
    pub fn truncate(&mut self, len: usize)
        requires
            old(self).wf(),
        ensures
            final(self).wf(),
            final(self)@ == if len <= old(self)@.len() {
                old(self)@.take(len as int)
            } else {
                old(self)@
            },
            final(self).capacity() == old(self).capacity(),
            final(self).is_allocated() == old(self).is_allocated(),
            final(self).dropped() == if len <= old(self)@.len() {
                old(self).dropped() + old(self)@.skip(len as int)
            } else {
                old(self).dropped()
            },
            final(self).forgotten() == old(self).forgotten(),
    {
        if let Some(buffer) = &mut self.ptr {
            if len < buffer.data.len() {
                let tail: Vec<T> = buffer.data.split_off(len);
                buffer.header.len = len;
                self.departures.drop_all(tail);
            }
        }
    }

    /// Drops all elements, first to last, and keeps the buffer.
    pub fn clear(&mut self)
        requires
            old(self).wf(),
        ensures
            final(self).wf(),
            final(self)@ == Seq::<T>::empty(),
            final(self).capacity() == old(self).capacity(),
            final(self).is_allocated() == old(self).is_allocated(),
            final(self).dropped() == old(self).dropped() + old(self)@,
            final(self).forgotten() == old(self).forgotten(),
    {
        self.truncate(0);
    }

    /// The elements as a slice.
    pub fn as_slice(&self) -> (slice: &[T])
        ensures
            slice@ == self@,
    {
        match &self.ptr {
            Some(buffer) => buffer.data.as_slice(),
            None => &[],
        }
    }

    /// The elements as a slice through which they can be changed, but not their number.
    pub fn as_mut_slice(&mut self) -> (slice: &mut [T])
        ensures
            slice@ == old(self)@,
            final(self)@ == final(slice)@,
            final(self).capacity() == old(self).capacity(),
            final(self).is_allocated() == old(self).is_allocated(),
            final(self).dropped() == old(self).dropped(),
            final(self).forgotten() == old(self).forgotten(),
            old(self).wf() && final(slice)@.len() == old(self)@.len() ==> final(self).wf(),
    {
        match &mut self.ptr {
            Some(buffer) => buffer.data.as_mut_slice(),
            None => &mut [],
        }
    }

    /// Cuts the vector in two at `at`: the elements from there on are returned in a vector of their
    /// own, which has room for just these. The others stay, and so does the capacity.
    pub fn split_off(&mut self, at: usize) -> (tail: ThinVec<T>)
        requires
            old(self).wf(),
            at <= old(self)@.len(),
        ensures
            final(self).wf(),
            final(self)@ == old(self)@.take(at as int),
            final(self).capacity() == old(self).capacity(),
            final(self).is_allocated() == old(self).is_allocated(),
            final(self).dropped() == old(self).dropped(),
            final(self).forgotten() == old(self).forgotten(),
            tail.wf(),
            tail@ == old(self)@.skip(at as int),
            tail.capacity() == old(self)@.len() - at,
            tail.dropped() == Seq::<T>::empty(),
            tail.forgotten() == Seq::<T>::empty(),
    {
        // A wrong index ends here, before anything is changed.
        vstd::pervasive::runtime_assert(at <= self.len());
        match &mut self.ptr {
            Some(buffer) => {
                let mut tail = buffer.data.split_off(at);
                buffer.header.len = buffer.data.len();
                let tail_len: usize = tail.len();
                proof {
                    layout::lemma_fits_smaller::<T>(tail_len as nat, buffer.header.cap as nat);
                }
                let mut new_buffer = buffer_with_capacity::<T>(tail_len);
                new_buffer.data.append(&mut tail);
                new_buffer.header.len = tail_len;
                ThinVec { ptr: Some(new_buffer), departures: Departures::none() }
            },
            None => ThinVec::new(),
        }
    }

    /// Drops a value that the vector has no use for.
    pub(crate) fn drop_unused(&mut self, val: T)
        requires
            old(self).wf(),
        ensures
            final(self).wf(),
            final(self)@ == old(self)@,
            final(self).capacity() == old(self).capacity(),
            final(self).is_allocated() == old(self).is_allocated(),
            final(self).dropped() == old(self).dropped().push(val),
            final(self).forgotten() == old(self).forgotten(),
    {
        self.departures.drop_one(val);
    }

    /// Gives back the buffer of a vector without elements.
    pub(crate) fn deallocate(&mut self)
        requires
            old(self)@.len() == 0,
        ensures
            final(self).wf(),
            final(self)@ == Seq::<T>::empty(),
            final(self).capacity() == 0,
            !final(self).is_allocated(),
            final(self).dropped() == old(self).dropped(),
            final(self).forgotten() == old(self).forgotten(),
    {
        self.ptr = None;
    }

    /// Moves the elements into a new buffer with room for `new_cap`.
    pub(crate) fn reallocate(&mut self, new_cap: usize)
        requires
            old(self).wf(),
            old(self)@.len() <= new_cap,
            layout::fits::<T>(new_cap as nat),
        ensures
            final(self).wf(),
            final(self)@ == old(self)@,
            final(self).is_allocated(),
            final(self).capacity() == new_cap,
            final(self).dropped() == old(self).dropped(),
            final(self).forgotten() == old(self).forgotten(),
    {
        let mut new_buffer = buffer_with_capacity::<T>(new_cap);
        new_buffer.header.len = self.len();
        if let Some(old_buffer) = &mut self.ptr {
            new_buffer.data.append(&mut old_buffer.data);
        }
        self.ptr = Some(new_buffer);
    }

    /// Moves all elements of `other` into the room behind those of this vector.
    pub(crate) fn move_all_from(&mut self, other: &mut ThinVec<T>)
        requires
            old(self).wf(),
            old(other).wf(),
            old(self)@.len() + old(other)@.len() <= old(self).capacity(),
        ensures
            final(self).wf(),
            final(self)@ == old(self)@ + old(other)@,
            final(self).capacity() == old(self).capacity(),
            final(self).is_allocated() == old(self).is_allocated(),
            final(self).dropped() == old(self).dropped(),
            final(self).forgotten() == old(self).forgotten(),
            final(other).wf(),
            final(other)@ == Seq::<T>::empty(),
            final(other).capacity() == old(other).capacity(),
            final(other).is_allocated() == old(other).is_allocated(),
            final(other).dropped() == old(other).dropped(),
            final(other).forgotten() == old(other).forgotten(),
    {
        if let Some(target) = &mut self.ptr {
            if let Some(source) = &mut other.ptr {
                target.data.append(&mut source.data);
                target.header.len = target.data.len();
                source.header.len = 0;
            }
        }
    }

    /// Makes room for one more element, in a larger buffer where the present one is full.
    fn reserve_one_more(&mut self)
        requires
            old(self).wf(),
            old(self).can_push(),
        ensures
            final(self).wf(),
            final(self)@ == old(self)@,
            final(self).capacity() == old(self).capacity_after_push(),
            final(self).is_allocated(),
            final(self).dropped() == old(self).dropped(),
            final(self).forgotten() == old(self).forgotten(),
            final(self)@.len() < final(self).capacity(),
    {
        let old_cap = self.capacity();
        let old_len = self.len();
        if old_cap <= old_len {
            proof {
                if vstd::layout::size_of::<T>() > 0 {
                    layout::lemma_fits_bound::<T>(layout::next_capacity::<T>(old_cap as nat));
                }
            }
            let new_cap: usize = layout::larger_capacity::<T>(old_cap);
            self.reallocate(new_cap);
        }
    }
}

impl<T> ThinVec<T> {
    /// The elements, without the header.
    pub(crate) fn into_elements(self) -> (elements: Vec<T>)
        ensures
            elements@ == self@,
    {
        match self.ptr {
            Some(buffer) => buffer.data,
            None => Vec::new(),
        }
    }
}

impl<T> Clone for ThinVec<T> where T: Clone {
    /// A vector of clones of the elements, in the same order, with room for just these.
    fn clone(&self) -> (copy: ThinVec<T>)
        ensures
            self.wf() ==> copy.wf(),
            copy@.len() == self@.len(),
            forall|i: int| #![trigger copy@[i]]
                0 <= i < copy@.len() ==> vstd::pervasive::strictly_cloned(self@[i], copy@[i]),
            copy.capacity() == self@.len(),
            copy.dropped() == Seq::<T>::empty(),
            copy.forgotten() == Seq::<T>::empty(),
    {
        match &self.ptr {
            Some(buffer) => {
                let elements: &[T] = buffer.data.as_slice();
                let len: usize = elements.len();
                let mut data: Vec<T> = Vec::with_capacity(len);
                let mut i: usize = 0;
                while i < len
                    invariant
                        elements@ == self@,
                        len == elements@.len(),
                        i <= len,
                        data@.len() == i,
                        forall|j: int| #![trigger data@[j]]
                            0 <= j < i ==> vstd::pervasive::strictly_cloned(elements@[j], data@[j]),
                    decreases len - i,
                {
                    data.push(elements[i].clone());
                    i = i + 1;
                }
                proof {
                    if self.wf() {
                        layout::lemma_fits_smaller::<T>(len as nat, buffer.header.cap as nat);
                    }
                }
                ThinVec {
                    ptr: Some(Box::new(Buffer { header: Header { len, cap: len }, data })),
                    departures: Departures::none(),
                }
            },
            None => ThinVec::new(),
        }
    }
}

impl<T> Default for ThinVec<T> {
    /// An empty vector, which allocates nothing.
    fn default() -> (vec: ThinVec<T>)
        ensures
            vec.wf(),
            vec@ == Seq::<T>::empty(),
            vec.capacity() == 0,
            !vec.is_allocated(),
            vec.dropped() == Seq::<T>::empty(),
            vec.forgotten() == Seq::<T>::empty(),
    {
        ThinVec::new()
    }
}

/// An empty buffer with room for `cap` elements.
fn buffer_with_capacity<T>(cap: usize) -> (buffer: Box<Buffer<T>>)
    requires
        layout::fits::<T>(cap as nat),
    ensures
        buffer.header.len == 0,
        buffer.header.cap == cap,
        buffer.data@ == Seq::<T>::empty(),
{
    // Only a test: where no machine could address such a block, this ends in "capacity overflow".
    layout::alloc_size::<T>(cap);
    Box::new(Buffer { header: Header { len: 0, cap }, data: Vec::with_capacity(cap) })
}

} // verus!

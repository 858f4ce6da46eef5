//! Changing the capacity, and taking many elements at once.

use crate::layout;
use crate::thin_vec::ThinVec;
use vstd::prelude::*;
use vstd::std_specs::iter::IteratorSpec;

verus! {

impl<T> ThinVec<T> {
    /// The vector can take elements until it has `need` of them.
    pub open spec fn can_hold(&self, need: nat) -> bool {
        layout::can_hold::<T>(self.capacity() as nat, need)
    }

    /// The capacity once the vector has taken elements until it has `need` of them.
    pub open spec fn capacity_for(&self, need: nat) -> nat {
        layout::grown_capacity::<T>(self.capacity() as nat, need)
    }

    /// Room for `need` elements can be made at one go.
    pub open spec fn can_reserve(&self, need: nat) -> bool {
        layout::can_reserve::<T>(self.capacity() as nat, need)
    }

    /// The capacity once room for `need` elements has been made at one go.
    pub open spec fn capacity_reserved(&self, need: nat) -> nat {
        layout::reserved_capacity::<T>(self.capacity() as nat, need)
    }

    /// A vector that can hold more elements than it has can take the next one, and goes on from
    /// there as it would have done at once.
    proof fn lemma_one_more(&self, need: nat)
        requires
            self.wf(),
            self@.len() < need,
            need <= usize::MAX,
            self.can_hold(need),
        ensures
            self.can_push(),
            self.capacity_after_push() == self.capacity_for(self@.len() + 1),
            layout::can_hold::<T>(self.capacity_after_push(), need),
            layout::grown_capacity::<T>(self.capacity_after_push(), need) == self.capacity_for(
                need,
            ),
    {
        let cap = self.capacity() as nat;
        let next = self@.len() + 1;
        self.lemma_len_within_capacity();
        reveal_with_fuel(layout::grown_capacity, 3);
        layout::lemma_grown_capacity_in_steps::<T>(cap, next, need);
        layout::lemma_grown_capacity_monotonic::<T>(cap, next, need);
        if self@.len() == cap {
            layout::lemma_fits_smaller::<T>(
                layout::grown_capacity::<T>(cap, next),
                layout::grown_capacity::<T>(cap, need),
            );
        }
    }

    /// Makes room for `additional` more elements. The capacity becomes what it would be if they were
    /// added one by one, or just what is needed where that would be too large.
    pub fn reserve(&mut self, additional: usize)
        requires
            old(self).wf(),
            old(self)@.len() + additional <= usize::MAX,
            old(self).can_reserve(old(self)@.len() + additional as nat),
        ensures
            final(self).wf(),
            final(self)@ == old(self)@,
            final(self).capacity() == old(self).capacity_reserved(
                old(self)@.len() + additional as nat,
            ),
            final(self).capacity() >= final(self)@.len() + additional,
            final(self).is_allocated() == (old(self).is_allocated() || old(self)@.len() + additional
                > old(self).capacity()),
            final(self).dropped() == old(self).dropped(),
            final(self).forgotten() == old(self).forgotten(),
    {
        let need: usize = self.len().checked_add(additional).expect("capacity overflow");
        let old_cap: usize = self.capacity();
        if need > old_cap {
            let cap: usize = layout::capacity_to_reserve::<T>(old_cap, need);
            self.reallocate(cap);
        }
    }

    /// Makes room for `additional` more elements, and for no others where a new buffer is needed.
    pub fn reserve_exact(&mut self, additional: usize)
        requires
            old(self).wf(),
            old(self)@.len() + additional <= usize::MAX,
            old(self)@.len() + additional <= old(self).capacity() || layout::fits::<T>(
                old(self)@.len() + additional as nat,
            ),
        ensures
            final(self).wf(),
            final(self)@ == old(self)@,
            final(self).capacity() == if old(self)@.len() + additional <= old(self).capacity() {
                old(self).capacity() as int
            } else {
                old(self)@.len() + additional
            },
            final(self).is_allocated() == (old(self).is_allocated() || old(self)@.len() + additional
                > old(self).capacity()),
            final(self).dropped() == old(self).dropped(),
            final(self).forgotten() == old(self).forgotten(),
    {
        let need: usize = self.len().checked_add(additional).expect("capacity overflow");
        if need > self.capacity() {
            self.reallocate(need);
        }
    }

    /// Gives back the room that is not needed: the capacity becomes the length, and an empty vector
    /// keeps no buffer.
    pub fn shrink_to_fit(&mut self)
        requires
            old(self).wf(),
        ensures
            final(self).wf(),
            final(self)@ == old(self)@,
            final(self).capacity() == old(self)@.len(),
            final(self).dropped() == old(self).dropped(),
            final(self).forgotten() == old(self).forgotten(),
            final(self).is_allocated() == (old(self)@.len() > 0),
    {
        let len: usize = self.len();
        proof {
            self.lemma_len_within_capacity();
        }
        if len == 0 {
            self.deallocate();
        } else if len < self.capacity() {
            proof {
                layout::lemma_fits_smaller::<T>(len as nat, self.capacity() as nat);
            }
            self.reallocate(len);
        }
    }

    /// Adds all that `iter` yields, in that order.
    pub fn extend<I>(&mut self, iter: I) where I: Iterator<Item = T>
        requires
            old(self).wf(),
            iter.obeys_prophetic_iter_laws(),
            iter.decrease() is Some,
            old(self)@.len() + iter.remaining().len() <= usize::MAX,
            old(self).can_hold(old(self)@.len() + iter.remaining().len()),
        ensures
            final(self).wf(),
            final(self)@ == old(self)@ + iter.remaining(),
            final(self).capacity() == old(self).capacity_for(
                old(self)@.len() + iter.remaining().len(),
            ),
            final(self).dropped() == old(self).dropped(),
            final(self).forgotten() == old(self).forgotten(),
    {
        let ghost all = self@ + iter.remaining();
        let ghost target = self.capacity_for(all.len());
        let mut iter = iter;
        loop
            invariant
                self.wf(),
                iter.obeys_prophetic_iter_laws(),
                iter.decrease() is Some,
                self@ + iter.remaining() == all,
                all.len() <= usize::MAX,
                self.can_hold(all.len()),
                self.capacity_for(all.len()) == target,
                self.dropped() == old(self).dropped(),
                self.forgotten() == old(self).forgotten(),
            ensures
                self@ == all,
            decreases iter.decrease()->0,
        {
            let ghost rest = iter.remaining();
            match iter.next() {
                Some(x) => {
                    proof {
                        self.lemma_one_more(all.len());
                    }
                    self.push(x);
                },
                None => {
                    assert(self@ == self@ + rest);
                    break;
                },
            }
        }
        proof {
            self.lemma_len_within_capacity();
        }
    }

    /// Moves all elements of `other` to the end of this vector, and leaves `other` empty. The
    /// capacity of `other` stays as it is.
    pub fn append(&mut self, other: &mut ThinVec<T>)
        requires
            old(self).wf(),
            old(other).wf(),
            old(self)@.len() + old(other)@.len() <= usize::MAX,
            old(self).can_reserve(old(self)@.len() + old(other)@.len()),
        ensures
            final(self).wf(),
            final(self)@ == old(self)@ + old(other)@,
            final(self).capacity() == old(self).capacity_reserved(
                old(self)@.len() + old(other)@.len(),
            ),
            final(self).dropped() == old(self).dropped(),
            final(self).forgotten() == old(self).forgotten(),
            final(other).wf(),
            final(other)@ == Seq::<T>::empty(),
            final(other).capacity() == old(other).capacity(),
            final(other).is_allocated() == old(other).is_allocated(),
            final(other).dropped() == old(other).dropped(),
            final(other).forgotten() == old(other).forgotten(),
    {
        self.reserve(other.len());
        self.move_all_from(other);
    }
}

impl<T: Clone> ThinVec<T> {
    /// Makes the length `new_len`: drops the elements from there on, and `value` behind them, or adds
    /// clones of `value`. The last one added is `value` itself.
    pub fn resize(&mut self, new_len: usize, value: T)
        requires
            old(self).wf(),
            old(self).can_reserve(new_len as nat),
        ensures
            final(self).wf(),
            final(self)@.len() == new_len,
            new_len <= old(self)@.len() ==> {
                &&& final(self)@ == old(self)@.take(new_len as int)
                &&& final(self).capacity() == old(self).capacity()
                &&& final(self).dropped() == (old(self).dropped() + old(self)@.skip(
                    new_len as int,
                )).push(value)
            },
            new_len > old(self)@.len() ==> {
                &&& final(self)@.take(old(self)@.len() as int) == old(self)@
                &&& forall|i: int| #![trigger final(self)@[i]]
                    old(self)@.len() <= i < new_len - 1 ==> vstd::pervasive::strictly_cloned(
                        value,
                        final(self)@[i],
                    )
                &&& final(self)@.last() == value
                &&& final(self).capacity() == old(self).capacity_reserved(new_len as nat)
                &&& final(self).dropped() == old(self).dropped()
            },
            final(self).forgotten() == old(self).forgotten(),
    {
        let ghost s = self@;
        let ghost target = self.capacity_reserved(new_len as nat);
        let old_len: usize = self.len();
        if new_len <= old_len {
            self.truncate(new_len);
            self.drop_unused(value);
        } else {
            self.reserve(new_len - old_len);
            while self.len() < new_len - 1
                invariant
                    self.wf(),
                    s.len() < new_len,
                    s.len() <= self@.len() < new_len,
                    self@.take(s.len() as int) == s,
                    forall|i: int| #![trigger self@[i]]
                        s.len() <= i < self@.len() ==> vstd::pervasive::strictly_cloned(
                            value,
                            self@[i],
                        ),
                    new_len <= self.capacity(),
                    self.capacity() == target,
                    self.dropped() == old(self).dropped(),
                    self.forgotten() == old(self).forgotten(),
                decreases new_len - self@.len(),
            {
                let ghost before = self@;
                let copy = value.clone();
                self.push(copy);
                assert(self@.take(s.len() as int) == before.take(s.len() as int));
            }
            let ghost before = self@;
            self.push(value);
            assert(self@.take(s.len() as int) == before.take(s.len() as int));
        }
    }

    /// Adds a clone of each element of `other`, in order.
    pub fn extend_from_slice(&mut self, other: &[T])
        requires
            old(self).wf(),
            old(self)@.len() + other@.len() <= usize::MAX,
            old(self).can_reserve(old(self)@.len() + other@.len()),
        ensures
            final(self).wf(),
            final(self)@.len() == old(self)@.len() + other@.len(),
            final(self)@.take(old(self)@.len() as int) == old(self)@,
            forall|i: int| #![trigger other@[i]]
                0 <= i < other@.len() ==> vstd::pervasive::strictly_cloned(
                    other@[i],
                    final(self)@[old(self)@.len() + i],
                ),
            final(self).capacity() == old(self).capacity_reserved(old(self)@.len() + other@.len()),
            final(self).dropped() == old(self).dropped(),
            final(self).forgotten() == old(self).forgotten(),
    {
        let ghost s = self@;
        let ghost all = s.len() + other@.len();
        let ghost target = self.capacity_reserved(all);
        self.reserve(other.len());
        let mut i: usize = 0;
        while i < other.len()
            invariant
                self.wf(),
                i <= other@.len(),
                all == s.len() + other@.len(),
                all <= usize::MAX,
                self@.len() == s.len() + i,
                self@.take(s.len() as int) == s,
                forall|j: int| #![trigger other@[j]]
                    0 <= j < i ==> vstd::pervasive::strictly_cloned(other@[j], self@[s.len() + j]),
                all <= self.capacity(),
                self.capacity() == target,
                self.dropped() == old(self).dropped(),
                self.forgotten() == old(self).forgotten(),
            decreases other@.len() - i,
        {
            let ghost before = self@;
            self.push(other[i].clone());
            assert(self@.take(s.len() as int) == before.take(s.len() as int));
            i = i + 1;
        }
    }
}

} // verus!

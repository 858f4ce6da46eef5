//! What becomes of the elements that a vector lets go without handing them to anyone.

use vstd::prelude::*;

verus! {

/// The account of the elements that were let go, in the order in which they went: those that were
/// dropped, and those that were forgotten without being dropped.
///
/// The account exists for proofs only and takes no space. An element gets into it in one way: it is
/// given away, by value, to the function that drops it or to the function that forgets it.
pub(crate) struct Departures<T> {
    dropped: Ghost<Seq<T>>,
    forgotten: Ghost<Seq<T>>,
}

impl<T> Departures<T> {
    /// The elements that were dropped, first to last.
    pub(crate) closed spec fn dropped(&self) -> Seq<T> {
        self.dropped@
    }

    /// The elements that were forgotten, first to last.
    pub(crate) closed spec fn forgotten(&self) -> Seq<T> {
        self.forgotten@
    }

    /// The account is what was entered into it.
    proof fn law_account_is_what_was_entered(&self)
        ensures
            self.dropped() == self.dropped@,
            self.forgotten() == self.forgotten@,
    {
    }

    /// Nothing has been let go yet.
    pub(crate) fn none() -> (departures: Departures<T>)
        ensures
            departures.dropped() == Seq::<T>::empty(),
            departures.forgotten() == Seq::<T>::empty(),
    {
        Departures { dropped: Ghost(Seq::empty()), forgotten: Ghost(Seq::empty()) }
    }

    /// Drops `elements`, first to last.
    pub(crate) fn drop_all(&mut self, elements: Vec<T>)
        ensures
            final(self).dropped() == old(self).dropped() + elements@,
            final(self).forgotten() == old(self).forgotten(),
    {
        proof {
            self.dropped@ = self.dropped@ + elements@;
        }
    }

    /// Drops `element`.
    pub(crate) fn drop_one(&mut self, element: T)
        ensures
            final(self).dropped() == old(self).dropped().push(element),
            final(self).forgotten() == old(self).forgotten(),
    {
        proof {
            self.dropped@ = self.dropped@.push(element);
        }
    }

    /// Forgets `element` without dropping it.
    pub(crate) fn forget(&mut self, element: T)
        ensures
            final(self).dropped() == old(self).dropped(),
            final(self).forgotten() == old(self).forgotten().push(element),
    {
        proof {
            self.forgotten@ = self.forgotten@.push(element);
        }
        let _forgotten = std::mem::ManuallyDrop::new(element);
    }
}

} // verus!

//! Asking a predicate about one element after another, and keeping account of what was asked.

use vstd::prelude::*;

verus! {

/// What answers questions about elements, and may change with each question.
pub(crate) trait Predicate<T>: Sized {
    /// As it is now, it can be asked about `x`.
    spec fn accepts(self, x: T) -> bool;

    /// As it is now, being asked once about `x` can give `answer`, and leave it as `after`.
    spec fn answers(self, x: T, answer: bool, after: Self) -> bool;

    /// Asks once about `x`.
    fn ask(&mut self, x: &T) -> (answer: bool)
        requires
            old(self).accepts(*x),
        ensures
            old(self).answers(*x, answer, *final(self)),
    ;
}

/// A function that is asked, with an account of the calls that were made: what it was asked about and
/// what it answered, first to last. The account exists for proofs only. The function cannot be
/// reached but by [`Predicate::ask`], which makes one call and enters it into the account.
pub(crate) struct Asked<T, F> {
    f: F,
    calls: Ghost<Seq<(T, bool)>>,
}

impl<T, F> Asked<T, F> {
    /// The function.
    pub(crate) closed spec fn function(self) -> F {
        self.f
    }

    /// The calls that were made so far.
    pub(crate) closed spec fn calls(self) -> Seq<(T, bool)> {
        self.calls@
    }

    /// A function that has not been asked yet.
    pub(crate) fn new(f: F) -> (asked: Asked<T, F>)
        ensures
            asked.function() == f,
            asked.calls() == Seq::<(T, bool)>::empty(),
    {
        Asked { f, calls: Ghost(Seq::empty()) }
    }
}

impl<T, F> Predicate<T> for Asked<T, F> where F: FnMut(&T) -> bool {
    closed spec fn accepts(self, x: T) -> bool {
        self.f.requires((&x,))
    }

    closed spec fn answers(self, x: T, answer: bool, after: Self) -> bool {
        &&& self.f.ensures((&x,), answer)
        &&& after.f == self.f
        &&& after.calls@ == self.calls@.push((x, answer))
    }

    fn ask(&mut self, x: &T) -> (answer: bool) {
        let answer = (self.f)(x);
        proof {
            self.calls@ = self.calls@.push((*x, answer));
        }
        answer
    }
}

/// A function can be asked where its own precondition holds, its answers are those that it can give,
/// and each question adds one call to the account.
pub(crate) proof fn lemma_asked<T, F>(asked: Asked<T, F>, x: T, answer: bool, after: Asked<T, F>)
    where F: FnMut(&T) -> bool
    ensures
        asked.accepts(x) <==> asked.function().requires((&x,)),
        asked.answers(x, answer, after) <==> {
            &&& asked.function().ensures((&x,), answer)
            &&& after.function() == asked.function()
            &&& after.calls() == asked.calls().push((x, answer))
        },
{
}

} // verus!

//! Keeping some of the elements, in their order.

use crate::predicate;
use crate::predicate::{Asked, Predicate};
use crate::slices;
use crate::slices::swap_elements;
use crate::thin_vec::ThinVec;
use vstd::prelude::*;

verus! {

/// The elements of `s` whose mark in `keep` is set, in order.
pub open spec fn marked<T>(s: Seq<T>, keep: Seq<bool>) -> Seq<T>
    recommends
        keep.len() == s.len(),
    decreases s.len(),
{
    if s.len() == 0 {
        Seq::empty()
    } else if keep.last() {
        marked(s.drop_last(), keep.drop_last()).push(s.last())
    } else {
        marked(s.drop_last(), keep.drop_last())
    }
}

/// One more mark adds its element to those that are marked, or to those that are not.
proof fn lemma_one_more_mark<T>(s: Seq<T>, keep: Seq<bool>, n: int, mark: bool)
    requires
        0 <= n < s.len(),
        keep.len() == n,
    ensures
        marked(s.take(n + 1), keep.push(mark)) == if mark {
            marked(s.take(n), keep).push(s[n])
        } else {
            marked(s.take(n), keep)
        },
        marked(s.take(n + 1), keep.push(mark).map_values(|k: bool| !k)) == if mark {
            marked(s.take(n), keep.map_values(|k: bool| !k))
        } else {
            marked(s.take(n), keep.map_values(|k: bool| !k)).push(s[n])
        },
{
    let rejected = keep.push(mark).map_values(|k: bool| !k);
    assert(s.take(n + 1).drop_last() == s.take(n));
    assert(keep.push(mark).drop_last() == keep);
    assert(rejected.drop_last() == keep.map_values(|k: bool| !k));
}

/// A function that was asked about the elements of `s` in turn was called once for each of them, in
/// their order, and gave the answers that `keep` holds.
proof fn lemma_called_in_turn<T, F>(s: Seq<T>, states: Seq<Asked<T, F>>, keep: Seq<bool>, n: int)
    where F: FnMut(&T) -> bool
    requires
        0 <= n <= keep.len() <= s.len(),
        states.len() == keep.len() + 1,
        forall|i: int| #![trigger keep[i]]
            0 <= i < keep.len() ==> states[i].answers(s[i], keep[i], states[i + 1]),
    ensures
        states[n].function() == states[0].function(),
        states[n].calls() == states[0].calls() + Seq::new(n as nat, |i: int| (s[i], keep[i])),
        forall|i: int| #![trigger keep[i]]
            0 <= i < n ==> states[0].function().ensures((&s[i],), keep[i]),
    decreases n,
{
    if n > 0 {
        lemma_called_in_turn(s, states, keep, n - 1);
        assert(states[n - 1].answers(s[n - 1], keep[n - 1], states[n]));
        predicate::lemma_asked(states[n - 1], s[n - 1], keep[n - 1], states[n]);
    }
}

/// `retain` calls its function once for each element, first to last, and makes no other call: the
/// calls that it adds to the account are about just these elements, and their answers decide which of
/// them are kept.
pub(crate) proof fn law_retain_calls_once_for_each<T, F>() where F: FnMut(&T) -> bool
    ensures
        forall|vec: &mut ThinVec<T>, asked: &mut Asked<T, F>| #[trigger]
            call_ensures(ThinVec::<T>::retain_by::<Asked<T, F>>, (vec, asked), ()) ==> {
                let made = final(asked).calls().skip(asked.calls().len() as int);
                &&& asked.calls().is_prefix_of(final(asked).calls())
                &&& made.map_values(|call: (T, bool)| call.0) == vec@
                &&& final(vec)@ == marked(vec@, made.map_values(|call: (T, bool)| call.1))
                &&& final(asked).function() == asked.function()
            },
{
    assert forall|vec: &mut ThinVec<T>, asked: &mut Asked<T, F>| #[trigger]
        call_ensures(ThinVec::<T>::retain_by::<Asked<T, F>>, (vec, asked), ()) implies {
        let made = final(asked).calls().skip(asked.calls().len() as int);
        &&& asked.calls().is_prefix_of(final(asked).calls())
        &&& made.map_values(|call: (T, bool)| call.0) == vec@
        &&& final(vec)@ == marked(vec@, made.map_values(|call: (T, bool)| call.1))
        &&& final(asked).function() == asked.function()
    } by {
        let s = vec@;
        let (states, keep) = choose|states: Seq<Asked<T, F>>, keep: Seq<bool>|
            #![trigger states.len(), marked(s, keep)]
            {
                &&& keep.len() == s.len()
                &&& states.len() == keep.len() + 1
                &&& states[0] == *asked
                &&& states.last() == *final(asked)
                &&& forall|i: int| #![trigger keep[i]]
                    0 <= i < keep.len() ==> states[i].answers(s[i], keep[i], states[i + 1])
                &&& final(vec)@ == marked(s, keep)
            };
        lemma_called_in_turn(s, states, keep, keep.len() as int);
        let made = final(asked).calls().skip(asked.calls().len() as int);
        assert(made == Seq::new(s.len(), |i: int| (s[i], keep[i])));
        assert(made.map_values(|call: (T, bool)| call.0) =~= s);
        assert(made.map_values(|call: (T, bool)| call.1) =~= keep);
    }
}

impl<T> ThinVec<T> {
    /// Keeps the elements for which `f` returns `true` and drops the others.
    ///
    /// `f` is called once for each element, first to last. The order of those that stay does not
    /// change, and neither does the capacity.
    pub fn retain<F>(&mut self, f: F) where F: FnMut(&T) -> bool
        requires
            old(self).wf(),
            forall|i: int| #![trigger old(self)@[i]]
                0 <= i < old(self)@.len() ==> f.requires((&old(self)@[i],)),
        ensures
            final(self).wf(),
            final(self).capacity() == old(self).capacity(),
            final(self).is_allocated() == old(self).is_allocated(),
            final(self).forgotten() == old(self).forgotten(),
            old(self).dropped().is_prefix_of(final(self).dropped()),
            exists|keep: Seq<bool>| #![trigger marked(old(self)@, keep)]
                {
                    &&& keep.len() == old(self)@.len()
                    &&& forall|i: int| #![trigger keep[i]]
                        0 <= i < keep.len() ==> f.ensures((&old(self)@[i],), keep[i])
                    &&& final(self)@ == marked(old(self)@, keep)
                    &&& final(self).dropped().skip(old(self).dropped().len() as int).to_multiset()
                        == marked(old(self)@, keep.map_values(|k: bool| !k)).to_multiset()
                },
    {
        let ghost s = self@;
        let mut asked: Asked<T, F> = Asked::new(f);
        let ghost fresh = asked;
        proof {
            assert forall|states: Seq<Asked<T, F>>, keep: Seq<bool>|
                #![trigger states.len(), keep.len()]
                {
                    &&& keep.len() < s.len()
                    &&& states.len() == keep.len() + 1
                    &&& states[0] == fresh
                    &&& forall|i: int| #![trigger keep[i]]
                        0 <= i < keep.len() ==> states[i].answers(s[i], keep[i], states[i + 1])
                } implies states.last().accepts(s[keep.len() as int]) by {
                let n = keep.len() as int;
                lemma_called_in_turn(s, states, keep, n);
                predicate::lemma_asked(states.last(), s[n], true, fresh);
                assert(f.requires((&s[n],)));
            }
        }
        self.retain_by(&mut asked);
        proof {
            let (states, keep) = choose|states: Seq<Asked<T, F>>, keep: Seq<bool>|
                #![trigger states.len(), marked(s, keep)]
                {
                    &&& keep.len() == s.len()
                    &&& states.len() == keep.len() + 1
                    &&& states[0] == fresh
                    &&& states.last() == asked
                    &&& forall|i: int| #![trigger keep[i]]
                        0 <= i < keep.len() ==> states[i].answers(s[i], keep[i], states[i + 1])
                    &&& self@ == marked(s, keep)
                    &&& self.dropped().skip(old(self).dropped().len() as int).to_multiset()
                        == marked(s, keep.map_values(|k: bool| !k)).to_multiset()
                };
            lemma_called_in_turn(s, states, keep, keep.len() as int);
            assert(asked.calls() == Seq::new(s.len(), |i: int| (s[i], keep[i])));
        }
    }

    /// Keeps the elements for which `predicate` answers `true` and drops the others.
    ///
    /// The predicate goes through one state for each element: it is asked about each of them once,
    /// first to last, and about nothing else.
    pub(crate) fn retain_by<P>(&mut self, predicate: &mut P) where P: Predicate<T>
        requires
            old(self).wf(),
            forall|states: Seq<P>, keep: Seq<bool>| #![trigger states.len(), keep.len()]
                {
                    &&& keep.len() < old(self)@.len()
                    &&& states.len() == keep.len() + 1
                    &&& states[0] == *old(predicate)
                    &&& forall|i: int| #![trigger keep[i]]
                        0 <= i < keep.len() ==> states[i].answers(
                            old(self)@[i],
                            keep[i],
                            states[i + 1],
                        )
                } ==> states.last().accepts(old(self)@[keep.len() as int]),
        ensures
            final(self).wf(),
            final(self).capacity() == old(self).capacity(),
            final(self).is_allocated() == old(self).is_allocated(),
            final(self).forgotten() == old(self).forgotten(),
            old(self).dropped().is_prefix_of(final(self).dropped()),
            exists|states: Seq<P>, keep: Seq<bool>|
                #![trigger states.len(), marked(old(self)@, keep)]
                {
                    &&& keep.len() == old(self)@.len()
                    &&& states.len() == keep.len() + 1
                    &&& states[0] == *old(predicate)
                    &&& states.last() == *final(predicate)
                    &&& forall|i: int| #![trigger keep[i]]
                        0 <= i < keep.len() ==> states[i].answers(
                            old(self)@[i],
                            keep[i],
                            states[i + 1],
                        )
                    &&& final(self)@ == marked(old(self)@, keep)
                    &&& final(self).dropped().skip(old(self).dropped().len() as int).to_multiset()
                        == marked(old(self)@, keep.map_values(|k: bool| !k)).to_multiset()
                },
    {
        let ghost s = self@;
        let ghost first = *predicate;
        let ghost mut states = seq![*predicate];
        let ghost mut keep = Seq::<bool>::empty();
        let len = self.len();
        let mut del: usize = 0;
        let mut i: usize = 0;
        assert(self@.subrange(0, 0) == marked(s.take(0), keep.map_values(|k: bool| !k)));
        while i < len
            invariant
                self.wf(),
                self.capacity() == old(self).capacity(),
                self.is_allocated() == old(self).is_allocated(),
                self.dropped() == old(self).dropped(),
                self.forgotten() == old(self).forgotten(),
                s == old(self)@,
                first == *old(predicate),
                self@.len() == s.len(),
                len == s.len(),
                del <= i <= len,
                keep.len() == i,
                states.len() == i + 1,
                states[0] == first,
                states.last() == *predicate,
                forall|longer: Seq<P>, marks: Seq<bool>| #![trigger longer.len(), marks.len()]
                    {
                        &&& marks.len() < s.len()
                        &&& longer.len() == marks.len() + 1
                        &&& longer[0] == first
                        &&& forall|j: int| #![trigger marks[j]]
                            0 <= j < marks.len() ==> longer[j].answers(s[j], marks[j], longer[j + 1])
                    } ==> longer.last().accepts(s[marks.len() as int]),
                forall|j: int| #![trigger keep[j]]
                    0 <= j < i ==> states[j].answers(s[j], keep[j], states[j + 1]),
                self@.take(i - del) == marked(s.take(i as int), keep),
                self@.subrange(i - del, i as int).to_multiset() == marked(
                    s.take(i as int),
                    keep.map_values(|k: bool| !k),
                ).to_multiset(),
                forall|j: int| #![trigger self@[j]] i <= j < len ==> self@[j] == s[j],
            decreases len - i,
        {
            assert(states.last().accepts(s[keep.len() as int]));
            let ghost (states_before, keep_before) = (states, keep);
            let kept = predicate.ask(&self.as_slice()[i]);
            let ghost before = self@;
            proof {
                states = states.push(*predicate);
                keep = keep.push(kept);
                assert forall|j: int| #![trigger keep[j]] 0 <= j < i + 1 implies states[j].answers(
                    s[j],
                    keep[j],
                    states[j + 1],
                ) by {
                    if j < i {
                        assert(keep[j] == keep_before[j]);
                        assert(states[j] == states_before[j]);
                        assert(states[j + 1] == states_before[j + 1]);
                    }
                }
                lemma_one_more_mark(s, keep_before, i as int, kept);
                if kept {
                    slices::lemma_range_moves_up(before, i - del, i as int);
                } else {
                    slices::lemma_range_grows(
                        before,
                        i - del,
                        i as int,
                        marked(s.take(i as int), keep_before.map_values(|k: bool| !k)),
                    );
                }
            }
            if !kept {
                del = del + 1;
            } else if del > 0 {
                swap_elements(self.as_mut_slice(), i - del, i);
            }
            assert(kept ==> self@ == slices::swapped(before, i - del, i as int));
            assert(self@.take(i + 1 - del) == if kept {
                before.take(i - del).push(s[i as int])
            } else {
                before.take(i + 1 - del)
            });
            i = i + 1;
        }
        proof {
            assert(s.take(len as int) == s);
            assert(self@.skip(len - del) == self@.subrange(len - del, len as int));
        }
        let ghost tail = self@.skip(len - del);
        if del > 0 {
            self.truncate(len - del);
        } else {
            assert(self@.take(len as int) == self@);
            assert(tail == Seq::<T>::empty());
        }
        assert(self.dropped() == old(self).dropped() + tail);
        assert(self.dropped().skip(old(self).dropped().len() as int) == tail);
        assert(states.len() == keep.len() + 1);
    }
}

} // verus!

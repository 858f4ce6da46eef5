//! What holds of calls: what one of them gives back of another, and what becomes of each element.

use crate::dedup;
use crate::laws;
use crate::retain;
use crate::thin_vec::ThinVec;
use std::cmp::Ordering;
use vstd::prelude::*;
use vstd::std_specs::cmp::{OrdSpec, PartialEqSpec, PartialOrdSpec};

verus! {

// Single elements.

/// A call of `pop` gives back what the call of `push` before it added, and leaves what was there
/// before both.
pub proof fn law_pop_undoes_push<T>()
    ensures
        forall|vec: &mut ThinVec<T>, val: T, pushed: &mut ThinVec<T>, last: Option<T>|
            #![trigger
                call_ensures(ThinVec::<T>::push, (vec, val), ()),
                call_ensures(ThinVec::<T>::pop, (pushed,), last)]
            {
                &&& call_ensures(ThinVec::<T>::push, (vec, val), ())
                &&& *pushed == *final(vec)
                &&& call_ensures(ThinVec::<T>::pop, (pushed,), last)
            } ==> last == Some(val) && final(pushed)@ == vec@,
{
}

/// A call of `remove` gives back what the call of `insert` before it put there, and leaves what was
/// there before both.
pub proof fn law_remove_undoes_insert<T>()
    ensures
        forall|vec: &mut ThinVec<T>, idx: usize, val: T, longer: &mut ThinVec<T>, back: T|
            #![trigger
                call_ensures(ThinVec::<T>::insert, (vec, idx, val), ()),
                call_ensures(ThinVec::<T>::remove, (longer, idx), back)]
            {
                &&& call_ensures(ThinVec::<T>::insert, (vec, idx, val), ())
                &&& idx <= vec@.len()
                &&& *longer == *final(vec)
                &&& call_ensures(ThinVec::<T>::remove, (longer, idx), back)
            } ==> back == val && final(longer)@ == vec@,
{
}

/// A call of `insert` that puts back what the call of `remove` before it took away leaves what was
/// there before both.
pub proof fn law_insert_undoes_remove<T>()
    ensures
        forall|vec: &mut ThinVec<T>, idx: usize, val: T, shorter: &mut ThinVec<T>|
            #![trigger
                call_ensures(ThinVec::<T>::remove, (vec, idx), val),
                call_ensures(ThinVec::<T>::insert, (shorter, idx, val), ())]
            {
                &&& call_ensures(ThinVec::<T>::remove, (vec, idx), val)
                &&& idx < vec@.len()
                &&& *shorter == *final(vec)
                &&& call_ensures(ThinVec::<T>::insert, (shorter, idx, val), ())
            } ==> final(shorter)@ == vec@,
{
}

/// A call of `insert` at the end does what a call of `push` does.
pub proof fn law_insert_at_end_pushes<T>()
    ensures
        forall|x: &mut ThinVec<T>, y: &mut ThinVec<T>, idx: usize, val: T|
            #![trigger
                call_ensures(ThinVec::<T>::insert, (x, idx, val), ()),
                call_ensures(ThinVec::<T>::push, (y, val), ())]
            {
                &&& call_ensures(ThinVec::<T>::insert, (x, idx, val), ())
                &&& call_ensures(ThinVec::<T>::push, (y, val), ())
                &&& x@ == y@ && x.capacity() == y.capacity()
                &&& idx == x@.len()
            } ==> final(x)@ == final(y)@ && final(x).capacity() == final(y).capacity(),
{
}

/// `swap_remove` returns what `remove` returns and leaves the same elements, in another order. No
/// element but the last one moves.
pub proof fn law_swap_remove_takes_what_remove_takes<T>()
    ensures
        forall|x: &mut ThinVec<T>, y: &mut ThinVec<T>, idx: usize, a: T, b: T|
            #![trigger
                call_ensures(ThinVec::<T>::swap_remove, (x, idx), a),
                call_ensures(ThinVec::<T>::remove, (y, idx), b)]
            {
                &&& call_ensures(ThinVec::<T>::swap_remove, (x, idx), a)
                &&& call_ensures(ThinVec::<T>::remove, (y, idx), b)
                &&& x@ == y@
                &&& idx < x@.len()
            } ==> {
                &&& a == b
                &&& final(x)@.to_multiset() == final(y)@.to_multiset()
                &&& forall|i: int| #![trigger final(x)@[i]]
                    0 <= i < final(x)@.len() && i != idx ==> final(x)@[i] == x@[i]
            },
{
    assert forall|x: &mut ThinVec<T>, y: &mut ThinVec<T>, idx: usize, a: T, b: T|
        #![trigger
            call_ensures(ThinVec::<T>::swap_remove, (x, idx), a),
            call_ensures(ThinVec::<T>::remove, (y, idx), b)]
        {
            &&& call_ensures(ThinVec::<T>::swap_remove, (x, idx), a)
            &&& call_ensures(ThinVec::<T>::remove, (y, idx), b)
            &&& x@ == y@
            &&& idx < x@.len()
        } implies final(x)@.to_multiset() == final(y)@.to_multiset() by {
        laws::law_swap_remove_keeps_what_remove_keeps(x@, idx as int);
    }
}

// Tails.

/// A call of `append` puts together again what a call of `split_off` has cut in two, and leaves
/// nothing in the part that it took.
pub proof fn law_append_undoes_split_off<T>()
    ensures
        forall|
            vec: &mut ThinVec<T>,
            at: usize,
            tail: ThinVec<T>,
            x: &mut ThinVec<T>,
            y: &mut ThinVec<T>,
        |
            #![trigger
                call_ensures(ThinVec::<T>::split_off, (vec, at), tail),
                call_ensures(ThinVec::<T>::append, (x, y), ())]
            {
                &&& call_ensures(ThinVec::<T>::split_off, (vec, at), tail)
                &&& at <= vec@.len()
                &&& *x == *final(vec)
                &&& *y == tail
                &&& call_ensures(ThinVec::<T>::append, (x, y), ())
            } ==> final(x)@ == vec@ && final(y)@.len() == 0,
{
}

/// What `truncate` does not keep it drops: what is left and what it has dropped, put together, is
/// what was there, so each element that is cut off is dropped once, in its turn, and none is
/// forgotten.
pub proof fn law_truncate_drops_what_it_cuts_off<T>()
    ensures
        forall|vec: &mut ThinVec<T>, len: usize| #[trigger]
            call_ensures(ThinVec::<T>::truncate, (vec, len), ()) ==> {
                &&& final(vec)@ + final(vec).dropped().skip(vec.dropped().len() as int) == vec@
                &&& vec.dropped().is_prefix_of(final(vec).dropped())
                &&& final(vec).forgotten() == vec.forgotten()
                &&& final(vec)@.len() <= len
                &&& final(vec)@.len() < len ==> final(vec)@ == vec@
            },
{
}

/// `clear` drops every element once, in order, and forgets none.
pub proof fn law_clear_drops_all<T>()
    ensures
        forall|vec: &mut ThinVec<T>| #[trigger] call_ensures(ThinVec::<T>::clear, (vec,), ()) ==> {
            &&& final(vec)@.len() == 0
            &&& final(vec).dropped().skip(vec.dropped().len() as int) == vec@
            &&& vec.dropped().is_prefix_of(final(vec).dropped())
            &&& final(vec).forgotten() == vec.forgotten()
        },
{
}

/// `set_len` leaves what `truncate` leaves, but drops nothing: every element that it cuts off is
/// forgotten, and so is dropped by neither the call nor the vector.
pub proof fn law_set_len_forgets_what_truncate_drops<T>()
    ensures
        forall|x: &mut ThinVec<T>, y: &mut ThinVec<T>, len: usize|
            #![trigger
                call_ensures(ThinVec::<T>::set_len, (x, len), ()),
                call_ensures(ThinVec::<T>::truncate, (y, len), ())]
            {
                &&& call_ensures(ThinVec::<T>::set_len, (x, len), ())
                &&& call_ensures(ThinVec::<T>::truncate, (y, len), ())
                &&& x@ == y@
                &&& len <= x@.len()
            } ==> {
                &&& final(x)@ == final(y)@
                &&& final(x).dropped() == x.dropped()
                &&& final(x).forgotten().skip(x.forgotten().len() as int).reverse()
                    == final(y).dropped().skip(y.dropped().len() as int)
            },
{
    assert forall|x: &mut ThinVec<T>, y: &mut ThinVec<T>, len: usize|
        #![trigger
            call_ensures(ThinVec::<T>::set_len, (x, len), ()),
            call_ensures(ThinVec::<T>::truncate, (y, len), ())]
        {
            &&& call_ensures(ThinVec::<T>::set_len, (x, len), ())
            &&& call_ensures(ThinVec::<T>::truncate, (y, len), ())
            &&& x@ == y@
            &&& len <= x@.len()
        } implies final(x).forgotten().skip(x.forgotten().len() as int).reverse()
        == final(y).dropped().skip(y.dropped().len() as int) by {
        let tail = x@.skip(len as int);
        assert(final(x).forgotten().skip(x.forgotten().len() as int) =~= tail.reverse());
        assert(tail.reverse().reverse() =~= tail);
        assert(final(y).dropped().skip(y.dropped().len() as int) =~= tail);
    }
}

// Capacity.

/// A call of `push` on a full vector doubles the capacity, or makes it four where it was nothing. On
/// a vector with room it leaves the capacity alone.
pub proof fn law_push_doubles_a_full_buffer<T>()
    ensures
        forall|vec: &mut ThinVec<T>, val: T| #[trigger]
            call_ensures(ThinVec::<T>::push, (vec, val), ()) ==> {
                &&& vec@.len() < vec.capacity() ==> final(vec).capacity() == vec.capacity()
                &&& vec@.len() >= vec.capacity() > 0 && vstd::layout::size_of::<T>() > 0
                    ==> final(vec).capacity() == 2 * vec.capacity()
                &&& vec@.len() >= vec.capacity() == 0 && vstd::layout::size_of::<T>() > 0
                    ==> final(vec).capacity() == 4
                &&& vec@.len() >= vec.capacity() && vstd::layout::size_of::<T>() == 0
                    ==> final(vec).capacity() == usize::MAX
            },
{
}

/// A vector that is filled by `push` never has room for more than twice its elements, but for the
/// first four: where that holds before a call, it holds after it.
pub proof fn law_push_stays_within_twice_the_length<T>()
    requires
        vstd::layout::size_of::<T>() > 0,
    ensures
        forall|vec: &mut ThinVec<T>, val: T| #[trigger]
            call_ensures(ThinVec::<T>::push, (vec, val), ()) && vec@.len() <= vec.capacity() && (
            vec.capacity() <= 4 || vec.capacity() <= 2 * vec@.len()) ==> {
                ||| final(vec).capacity() <= 4
                ||| final(vec).capacity() <= 2 * final(vec)@.len()
            },
{
}

/// After a call of `reserve`, that many elements find room without another buffer.
pub proof fn law_reserve_makes_room<T>()
    ensures
        forall|vec: &mut ThinVec<T>, additional: usize| #[trigger]
            call_ensures(ThinVec::<T>::reserve, (vec, additional), ()) ==> {
                &&& final(vec)@ == vec@
                &&& final(vec).capacity() >= vec@.len() + additional
                &&& vec@.len() + additional <= vec.capacity() ==> final(vec).capacity()
                    == vec.capacity()
                &&& final(vec).capacity() > vec.capacity() && vstd::layout::size_of::<T>() > 0
                    && vec@.len() + additional <= usize::MAX ==> {
                    ||| final(vec).capacity() <= 4
                    ||| final(vec).capacity() < 2 * (vec@.len() + additional)
                }
            },
{
    assert forall|vec: &mut ThinVec<T>, additional: usize| #[trigger]
        call_ensures(ThinVec::<T>::reserve, (vec, additional), ()) && vec@.len() + additional
            <= usize::MAX && vstd::layout::size_of::<T>() > 0 && final(vec).capacity()
            > vec.capacity() implies {
        ||| final(vec).capacity() <= 4
        ||| final(vec).capacity() < 2 * (vec@.len() + additional)
    } by {
        laws::law_growth_is_bounded::<T>(vec.capacity() as nat, vec@.len() + additional as nat);
    }
}

// Keeping some elements, and dropping repetitions.

/// A call of `retain` keeps each element or drops it, and never both: what is left and what it has
/// dropped is what was there. It forgets none.
pub proof fn law_retain_drops_what_it_does_not_keep<T, F>() where F: FnMut(&T) -> bool
    ensures
        forall|vec: &mut ThinVec<T>, f: F| #[trigger]
            call_ensures(ThinVec::<T>::retain::<F>, (vec, f), ()) ==> {
                &&& final(vec)@.to_multiset().add(
                    final(vec).dropped().skip(vec.dropped().len() as int).to_multiset(),
                ) == vec@.to_multiset()
                &&& vec.dropped().is_prefix_of(final(vec).dropped())
                &&& final(vec).forgotten() == vec.forgotten()
            },
{
    assert forall|vec: &mut ThinVec<T>, f: F| #[trigger]
        call_ensures(ThinVec::<T>::retain::<F>, (vec, f), ()) implies final(vec)@.to_multiset().add(
        final(vec).dropped().skip(vec.dropped().len() as int).to_multiset(),
    ) == vec@.to_multiset() by {
        let keep = choose|keep: Seq<bool>| #![trigger retain::marked(vec@, keep)]
            {
                &&& keep.len() == vec@.len()
                &&& final(vec)@ == retain::marked(vec@, keep)
                &&& final(vec).dropped().skip(vec.dropped().len() as int).to_multiset()
                    == retain::marked(vec@, keep.map_values(|k: bool| !k)).to_multiset()
            };
        laws::law_retain_keeps_or_drops_each(vec@, keep);
    }
}

/// A call of `retain` with a function that answers as `pred` does keeps the elements that satisfy
/// `pred`, in order, and no others.
pub proof fn law_retain_filters<T, F>(pred: spec_fn(T) -> bool) where F: FnMut(&T) -> bool
    ensures
        forall|vec: &mut ThinVec<T>, f: F| #[trigger]
            call_ensures(ThinVec::<T>::retain::<F>, (vec, f), ()) && (forall|x: T, answer: bool|
                #[trigger] f.ensures((&x,), answer) ==> answer == pred(x)) ==> final(vec)@
                == vec@.filter(pred),
{
    assert forall|vec: &mut ThinVec<T>, f: F| #[trigger]
        call_ensures(ThinVec::<T>::retain::<F>, (vec, f), ()) && (forall|x: T, answer: bool|
            #[trigger] f.ensures((&x,), answer) ==> answer == pred(x)) implies final(vec)@
        == vec@.filter(pred) by {
        let keep = choose|keep: Seq<bool>| #![trigger retain::marked(vec@, keep)]
            {
                &&& keep.len() == vec@.len()
                &&& forall|i: int| #![trigger keep[i]]
                    0 <= i < keep.len() ==> f.ensures((&vec@[i],), keep[i])
                &&& final(vec)@ == retain::marked(vec@, keep)
            };
        assert forall|i: int| #![trigger keep[i]] 0 <= i < vec@.len() implies keep[i] == pred(
            vec@[i],
        ) by {
            assert(f.ensures((&vec@[i],), keep[i]));
        }
        laws::law_retain_is_filter(vec@, keep, pred);
    }
}

/// A call of `dedup` keeps each element or drops it, and never both. It forgets none.
pub proof fn law_dedup_drops_what_it_does_not_keep<T: PartialEq>()
    ensures
        forall|vec: &mut ThinVec<T>| #[trigger] call_ensures(ThinVec::<T>::dedup, (vec,), ()) ==> {
            &&& final(vec)@.to_multiset().add(
                final(vec).dropped().skip(vec.dropped().len() as int).to_multiset(),
            ) == vec@.to_multiset()
            &&& vec.dropped().is_prefix_of(final(vec).dropped())
            &&& final(vec).forgotten() == vec.forgotten()
        },
{
    assert forall|vec: &mut ThinVec<T>| #[trigger]
        call_ensures(ThinVec::<T>::dedup, (vec,), ()) implies final(vec)@.to_multiset().add(
        final(vec).dropped().skip(vec.dropped().len() as int).to_multiset(),
    ) == vec@.to_multiset() by {
        let keep = choose|keep: Seq<bool>| #![trigger retain::marked(vec@, keep)]
            {
                &&& keep.len() == vec@.len()
                &&& final(vec)@ == retain::marked(vec@, keep)
                &&& final(vec).dropped().skip(vec.dropped().len() as int).to_multiset()
                    == retain::marked(vec@, keep.map_values(|k: bool| !k)).to_multiset()
            };
        laws::law_retain_keeps_or_drops_each(vec@, keep);
    }
}

/// After a call of `dedup` no element equals the one before it, the first one is the one that was
/// first, and where there was no repetition nothing has changed.
pub proof fn law_dedup_drops_repetitions<T: PartialEq>()
    requires
        T::obeys_eq_spec(),
    ensures
        forall|vec: &mut ThinVec<T>| #[trigger] call_ensures(ThinVec::<T>::dedup, (vec,), ()) ==> {
            &&& forall|i: int| #![trigger final(vec)@[i]]
                0 < i < final(vec)@.len() ==> !final(vec)@[i].eq_spec(&final(vec)@[i - 1])
            &&& vec@.len() > 0 ==> final(vec)@.len() > 0 && final(vec)@[0] == vec@[0]
            &&& (forall|i: int| #![trigger vec@[i]]
                0 < i < vec@.len() ==> !vec@[i].eq_spec(&vec@[i - 1])) ==> final(vec)@ == vec@
        },
{
    let same = |a: T, b: T| a.eq_spec(&b);
    assert forall|vec: &mut ThinVec<T>| #[trigger]
        call_ensures(ThinVec::<T>::dedup, (vec,), ()) implies {
        &&& forall|i: int| #![trigger final(vec)@[i]]
            0 < i < final(vec)@.len() ==> !final(vec)@[i].eq_spec(&final(vec)@[i - 1])
        &&& vec@.len() > 0 ==> final(vec)@.len() > 0 && final(vec)@[0] == vec@[0]
        &&& (forall|i: int| #![trigger vec@[i]]
            0 < i < vec@.len() ==> !vec@[i].eq_spec(&vec@[i - 1])) ==> final(vec)@ == vec@
    } by {
        let s = vec@;
        let d = dedup::deduped(s, same);
        assert(final(vec)@ == d);
        laws::law_dedup_leaves_no_repetition(s, same);
        laws::law_dedup_is_not_empty(s, same);
        assert forall|i: int| #![trigger final(vec)@[i]] 0 < i < final(vec)@.len() implies
            !final(vec)@[i].eq_spec(&final(vec)@[i - 1]) by {
            assert(!same(d[i], d[i - 1]));
        }
        if forall|i: int| #![trigger vec@[i]]
            0 < i < vec@.len() ==> !vec@[i].eq_spec(&vec@[i - 1]) {
            assert forall|i: int| #![trigger s[i]] 0 < i < s.len() implies !same(s[i], s[i - 1]) by {
                assert(!vec@[i].eq_spec(&vec@[i - 1]));
            }
            laws::law_dedup_keeps_what_does_not_repeat(s, same);
        }
    }
}

/// A call of `dedup_by` with a function that changes nothing and answers as `same` does keeps what
/// `dedup` keeps where `==` answers so.
pub proof fn law_dedup_by_goes_by_the_answers<T, F>(same: spec_fn(T, T) -> bool)
    where F: FnMut(&mut T, &mut T) -> bool
    ensures
        forall|vec: &mut ThinVec<T>, f: F| #[trigger]
            call_ensures(ThinVec::<T>::dedup_by::<F>, (vec, f), ()) && (forall|
                x: &mut T,
                y: &mut T,
                answer: bool,
            | #[trigger]
                f.ensures((x, y), answer) ==> {
                    &&& answer == same(*x, *y)
                    &&& *final(x) == *x
                    &&& *final(y) == *y
                }) ==> final(vec)@ == dedup::deduped(vec@, same),
{
    assert forall|vec: &mut ThinVec<T>, f: F| #[trigger]
        call_ensures(ThinVec::<T>::dedup_by::<F>, (vec, f), ()) && (forall|
            x: &mut T,
            y: &mut T,
            answer: bool,
        | #[trigger]
            f.ensures((x, y), answer) ==> {
                &&& answer == same(*x, *y)
                &&& *final(x) == *x
                &&& *final(y) == *y
            }) implies final(vec)@ == dedup::deduped(vec@, same) by {
        let steps = choose|steps: Seq<dedup::Comparison<T>>|
            #![trigger dedup::replay(vec@, steps)]
            {
                &&& steps.len() == dedup::step_count(vec@.len())
                &&& dedup::in_turn(vec@, steps)
                &&& forall|i: int| #![trigger steps[i]]
                    0 <= i < steps.len() ==> {
                        &&& steps[i].same == same(steps[i].item, steps[i].kept)
                        &&& dedup::only_looks(steps[i])
                    }
                &&& final(vec)@ == dedup::replay(vec@, steps)
            };
        dedup::lemma_replay_is_deduped(vec@, steps, same);
    }
}

/// A call of `dedup_by` keeps or drops each element, whatever the comparisons change in it: as many
/// are left and dropped as there were. It forgets none.
pub proof fn law_dedup_by_drops_what_it_does_not_keep<T, F>()
    where F: FnMut(&mut T, &mut T) -> bool
    ensures
        forall|vec: &mut ThinVec<T>, f: F| #[trigger]
            call_ensures(ThinVec::<T>::dedup_by::<F>, (vec, f), ()) ==> {
                &&& final(vec)@.len() + final(vec).dropped().len() == vec@.len()
                    + vec.dropped().len()
                &&& vec.dropped().is_prefix_of(final(vec).dropped())
                &&& final(vec).forgotten() == vec.forgotten()
            },
{
    assert forall|vec: &mut ThinVec<T>, f: F| #[trigger]
        call_ensures(ThinVec::<T>::dedup_by::<F>, (vec, f), ()) implies final(vec)@.len()
        + final(vec).dropped().len() == vec@.len() + vec.dropped().len() by {
        let steps = choose|steps: Seq<dedup::Comparison<T>>|
            #![trigger dedup::replay(vec@, steps)]
            {
                &&& steps.len() == dedup::step_count(vec@.len())
                &&& final(vec)@ == dedup::replay(vec@, steps)
                &&& final(vec).dropped().skip(vec.dropped().len() as int).to_multiset()
                    == dedup::discarded(steps).to_multiset()
            };
        laws::law_comparisons_keep_or_drop(vec@, steps);
        let gone = final(vec).dropped().skip(vec.dropped().len() as int);
        vstd::seq_lib::to_multiset_len(gone);
        vstd::seq_lib::to_multiset_len(dedup::discarded(steps));
    }
}

// Comparing.

/// A call of `cmp` gives the order of the first elements that differ.
pub proof fn law_cmp_goes_by_the_first_difference<T: Ord>()
    requires
        T::obeys_cmp_spec(),
    ensures
        forall|x: &ThinVec<T>, y: &ThinVec<T>, order: Ordering, n: int|
            #![trigger call_ensures(ThinVec::<T>::cmp, (x, y), order), x@[n]]
            {
                &&& call_ensures(ThinVec::<T>::cmp, (x, y), order)
                &&& 0 <= n < x@.len() && n < y@.len()
                &&& forall|i: int|
                    0 <= i < n ==> #[trigger] x@[i].cmp_spec(&y@[i]) == Ordering::Equal
                &&& x@[n].cmp_spec(&y@[n]) != Ordering::Equal
            } ==> order == x@[n].cmp_spec(&y@[n]),
{
    assert forall|x: &ThinVec<T>, y: &ThinVec<T>, order: Ordering, n: int|
        #![trigger call_ensures(ThinVec::<T>::cmp, (x, y), order), x@[n]]
        {
            &&& call_ensures(ThinVec::<T>::cmp, (x, y), order)
            &&& 0 <= n < x@.len() && n < y@.len()
            &&& forall|i: int| 0 <= i < n ==> #[trigger] x@[i].cmp_spec(&y@[i]) == Ordering::Equal
            &&& x@[n].cmp_spec(&y@[n]) != Ordering::Equal
        } implies order == x@[n].cmp_spec(&y@[n]) by {
        laws::law_first_difference_decides_totally(x@, y@, n);
    }
}

/// A call of `partial_cmp` gives the order of the first elements that do not compare as equal.
pub proof fn law_partial_cmp_goes_by_the_first_difference<T: PartialOrd>()
    requires
        T::obeys_partial_cmp_spec(),
    ensures
        forall|x: &ThinVec<T>, y: &ThinVec<T>, order: Option<Ordering>, n: int|
            #![trigger call_ensures(ThinVec::<T>::partial_cmp, (x, y), order), x@[n]]
            {
                &&& call_ensures(ThinVec::<T>::partial_cmp, (x, y), order)
                &&& 0 <= n < x@.len() && n < y@.len()
                &&& forall|i: int|
                    0 <= i < n ==> #[trigger] x@[i].partial_cmp_spec(&y@[i]) == Some(
                        Ordering::Equal,
                    )
                &&& x@[n].partial_cmp_spec(&y@[n]) != Some(Ordering::Equal)
            } ==> order == x@[n].partial_cmp_spec(&y@[n]),
{
    assert forall|x: &ThinVec<T>, y: &ThinVec<T>, order: Option<Ordering>, n: int|
        #![trigger call_ensures(ThinVec::<T>::partial_cmp, (x, y), order), x@[n]]
        {
            &&& call_ensures(ThinVec::<T>::partial_cmp, (x, y), order)
            &&& 0 <= n < x@.len() && n < y@.len()
            &&& forall|i: int|
                0 <= i < n ==> #[trigger] x@[i].partial_cmp_spec(&y@[i]) == Some(Ordering::Equal)
            &&& x@[n].partial_cmp_spec(&y@[n]) != Some(Ordering::Equal)
        } implies order == x@[n].partial_cmp_spec(&y@[n]) by {
        laws::law_first_difference_decides(x@, y@, n);
    }
}

} // verus!

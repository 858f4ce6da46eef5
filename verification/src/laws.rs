//! What holds of the operations together: which of them undo each other, what they leave alone, and
//! what follows for vectors that are sorted, compared or cloned.

use crate::compare;
use crate::dedup;
use crate::iter::IntoIter;
use crate::layout;
use crate::retain;
use crate::slices;
use crate::thin_vec::ThinVec;
use std::cmp::Ordering;
use vstd::prelude::*;
use vstd::std_specs::cmp::{OrdSpec, PartialEqSpec, PartialOrdSpec};
use vstd::std_specs::iter::{DoubleEndedIteratorSpec, IteratorSpec};

verus! {

// Single elements.

/// `pop` gives back what `push` added, and leaves what was there before.
pub proof fn law_push_then_pop<T>(s: Seq<T>, val: T)
    ensures
        s.push(val).last() == val,
        s.push(val).drop_last() == s,
{
}

/// Adding at the end by `insert` is `push`.
pub proof fn law_insert_at_end_is_push<T>(s: Seq<T>, val: T)
    ensures
        s.insert(s.len() as int, val) == s.push(val),
{
}

/// `remove` gives back what `insert` put there, and leaves what was there before.
pub proof fn law_insert_then_remove<T>(s: Seq<T>, idx: int, val: T)
    requires
        0 <= idx <= s.len(),
    ensures
        s.insert(idx, val)[idx] == val,
        s.insert(idx, val).remove(idx) == s,
{
}

/// Putting back by `insert` what `remove` took away leaves the vector as it was.
pub proof fn law_remove_then_insert<T>(s: Seq<T>, idx: int)
    requires
        0 <= idx < s.len(),
    ensures
        s.remove(idx).insert(idx, s[idx]) == s,
{
}

/// `swap_remove` and `remove` keep the same elements, in another order.
pub proof fn law_swap_remove_keeps_what_remove_keeps<T>(s: Seq<T>, idx: int)
    requires
        0 <= idx < s.len(),
    ensures
        s.update(idx, s.last()).drop_last().to_multiset() == s.remove(idx).to_multiset(),
{
    broadcast use vstd::seq_lib::group_to_multiset_ensures;

    let swapped = s.update(idx, s.last()).drop_last();
    let last = s.len() - 1;
    if idx == last {
        assert(swapped == s.remove(idx));
    } else {
        // Both are the common part without place `idx`, with the last element put in somewhere.
        let common = s.drop_last().remove(idx);
        assert(s.remove(idx) == common.push(s.last()));
        assert(swapped.remove(idx) == common);
        assert(swapped[idx] == s.last());
        assert(swapped.to_multiset().remove(s.last()) == common.to_multiset());
        assert(swapped.to_multiset().count(s.last()) > 0);
        assert(swapped.to_multiset() =~= common.to_multiset().insert(s.last()));
        assert(common.push(s.last()).to_multiset() =~= common.to_multiset().insert(s.last()));
    }
}

// Tails.

/// `append` puts together again what `split_off` has cut in two.
pub proof fn law_split_off_then_append<T>(s: Seq<T>, at: int)
    requires
        0 <= at <= s.len(),
    ensures
        s.take(at) + s.skip(at) == s,
{
}

/// What `truncate` leaves of `s`.
pub open spec fn truncated<T>(s: Seq<T>, len: nat) -> Seq<T> {
    if len <= s.len() {
        s.take(len as int)
    } else {
        s
    }
}

/// Of two truncations the shorter one counts, in whatever order they come. Truncating to the length
/// or to more changes nothing, and truncating to nothing is `clear`.
pub proof fn law_truncate_twice<T>(s: Seq<T>, long: nat, short: nat)
    requires
        short <= long,
    ensures
        truncated(truncated(s, long), short) == truncated(s, short),
        truncated(truncated(s, short), long) == truncated(s, short),
        long >= s.len() ==> truncated(s, long) == s,
        truncated(s, 0) == Seq::<T>::empty(),
{
}

// Capacity.

/// Taking one more element never makes the capacity smaller, and leaves room for that element.
pub proof fn law_push_keeps_capacity<T>(vec: ThinVec<T>)
    requires
        vec.wf(),
        vec.can_push(),
    ensures
        vec.capacity_after_push() >= vec.capacity(),
        vec.capacity_after_push() > vec@.len(),
{
    vec.lemma_len_within_capacity();
}

/// A full buffer is replaced by one twice as large, so that the elements of a vector are moved only
/// rarely while it grows, and no more room is taken than that. The first one has room for four.
pub proof fn law_capacity_doubles<T>(vec: ThinVec<T>)
    requires
        vec.wf(),
        vec.can_push(),
        vec@.len() == vec.capacity(),
        vstd::layout::size_of::<T>() > 0,
    ensures
        vec.capacity() > 0 ==> vec.capacity_after_push() == 2 * vec.capacity(),
        vec.capacity() == 0 ==> vec.capacity_after_push() == 4,
{
}

/// Growing for `need` elements stops at the first capacity that has room for them: it is four, or
/// less than twice what is needed. The same holds of room that is made at one go.
pub proof fn law_growth_is_bounded<T>(cap: nat, need: nat)
    requires
        cap < need <= usize::MAX,
        vstd::layout::size_of::<T>() > 0,
    ensures
        need <= layout::grown_capacity::<T>(cap, need),
        layout::grown_capacity::<T>(cap, need) == 4 || layout::grown_capacity::<T>(cap, need) < 2
            * need,
        need <= layout::reserved_capacity::<T>(cap, need),
        layout::reserved_capacity::<T>(cap, need) == 4 || layout::reserved_capacity::<T>(cap, need)
            < 2 * need,
    decreases need - cap,
{
    let next = layout::next_capacity::<T>(cap);
    reveal_with_fuel(layout::grown_capacity, 3);
    if next < need {
        law_growth_is_bounded::<T>(next, need);
    }
}

/// Growing goes by doubling: what is reached is what was there, or four where there was nothing,
/// times a power of two, and half of it would not have been enough. Elements without a size need one
/// buffer for all time.
pub proof fn law_growth_is_by_doubling<T>(cap: nat, need: nat)
    requires
        need <= usize::MAX,
    ensures
        need <= cap ==> layout::grown_capacity::<T>(cap, need) == cap,
        cap < need && vstd::layout::size_of::<T>() == 0 ==> layout::grown_capacity::<T>(cap, need)
            == usize::MAX,
        0 < cap < need && vstd::layout::size_of::<T>() > 0 ==> exists|k: nat|
            {
                &&& layout::grown_capacity::<T>(cap, need) == cap * #[trigger]
                    vstd::arithmetic::power2::pow2(k)
                &&& layout::grown_capacity::<T>(cap, need) >= need
                &&& layout::grown_capacity::<T>(cap, need) < 2 * need
            },
        0 == cap < need && vstd::layout::size_of::<T>() > 0 ==> exists|k: nat|
            {
                &&& layout::grown_capacity::<T>(cap, need) == 4 * #[trigger]
                    vstd::arithmetic::power2::pow2(k)
                &&& layout::grown_capacity::<T>(cap, need) >= need
                &&& k > 0 ==> layout::grown_capacity::<T>(cap, need) < 2 * need
            },
    decreases
        if need > cap {
            need - cap
        } else {
            0
        },
{
    if cap < need && vstd::layout::size_of::<T>() > 0 {
        let next = layout::next_capacity::<T>(cap);
        let grown = layout::grown_capacity::<T>(cap, need);
        vstd::arithmetic::power2::lemma2_to64();
        law_growth_is_by_doubling::<T>(next, need);
        assert(grown == layout::grown_capacity::<T>(next, need));
        if next < need {
            let k = choose|k: nat|
                {
                    &&& grown == next * #[trigger] vstd::arithmetic::power2::pow2(k)
                    &&& grown >= need
                    &&& grown < 2 * need
                };
            if cap > 0 {
                vstd::arithmetic::power2::lemma_pow2_unfold(k + 1);
                let half = vstd::arithmetic::power2::pow2(k);
                assert(next * half == cap * (2 * half)) by (nonlinear_arith)
                    requires
                        next == 2 * cap,
                ;
                assert(grown == cap * vstd::arithmetic::power2::pow2(k + 1));
            }
        } else if cap > 0 {
            assert(grown == cap * vstd::arithmetic::power2::pow2(1));
        } else {
            assert(grown == 4 * vstd::arithmetic::power2::pow2(0));
        }
    }
}

/// A buffer takes two words for its header, what the elements are aligned to beyond a word, and the
/// elements themselves. It can exist where that is no more than the largest `isize`.
pub proof fn law_buffer_size<T>(cap: nat)
    ensures
        layout::header_bytes() == 2 * vstd::layout::size_of::<usize>(),
        vstd::layout::align_of::<T>() <= vstd::layout::align_of::<usize>()
            ==> layout::data_offset::<T>() == 2 * vstd::layout::size_of::<usize>(),
        vstd::layout::align_of::<T>() > vstd::layout::align_of::<usize>()
            ==> layout::data_offset::<T>() == 2 * vstd::layout::size_of::<usize>()
            + vstd::layout::align_of::<T>() - vstd::layout::align_of::<usize>(),
        layout::alloc_bytes::<T>(cap) == layout::data_offset::<T>() + cap
            * vstd::layout::size_of::<T>(),
        layout::fits::<T>(cap) <==> layout::data_offset::<T>() + cap * vstd::layout::size_of::<T>()
            <= isize::MAX,
{
    vstd::arithmetic::mul::lemma_mul_is_commutative(
        cap as int,
        vstd::layout::size_of::<T>() as int,
    );
}

/// One more element is refused only where a new buffer is needed and cannot exist, or where the
/// length would be no number of the machine.
pub proof fn law_what_can_be_pushed<T>(vec: ThinVec<T>)
    requires
        vec.wf(),
    ensures
        vec.can_push() <==> vec@.len() < vec.capacity() || (vec@.len() < usize::MAX && layout::fits::<
            T,
        >(
            if vstd::layout::size_of::<T>() == 0 {
                usize::MAX as nat
            } else if vec.capacity() == 0 {
                4
            } else {
                2 * vec.capacity() as nat
            },
        )),
        vec@.len() < vec.capacity() ==> vec.capacity_after_push() == vec.capacity(),
{
}

/// Room that is made at one go is what growing would lead to where such a buffer can exist, and just
/// what is needed where it cannot. It is refused only where not even that can exist.
pub proof fn law_reserve_takes_what_is_needed<T>(vec: ThinVec<T>, need: nat)
    requires
        vec.wf(),
        need <= usize::MAX,
    ensures
        vec.can_reserve(need) <==> need <= vec.capacity() || layout::fits::<T>(need),
        vec.can_hold(need) <==> need <= vec.capacity() || layout::fits::<T>(vec.capacity_for(need)),
        vec.capacity_for(need) == layout::grown_capacity::<T>(vec.capacity() as nat, need),
        need <= vec.capacity() ==> vec.capacity_reserved(need) == vec.capacity(),
        need > vec.capacity() && layout::fits::<T>(vec.capacity_for(need))
            ==> vec.capacity_reserved(need) == vec.capacity_for(need),
        need > vec.capacity() && !layout::fits::<T>(vec.capacity_for(need))
            ==> vec.capacity_reserved(need) == need,
{
}

/// Elements that start where they are aligned fit into the block that was counted for them: wherever
/// between the end of the header and the counted offset they start, they end inside the allocation.
pub proof fn law_elements_fit_into_allocation<T>(header: nat, addr: nat, cap: nat)
    requires
        header + layout::header_bytes() <= addr <= header + layout::data_offset::<T>(),
    ensures
        addr + vstd::layout::size_of::<T>() * cap <= header + layout::alloc_bytes::<T>(cap),
{
}

/// With the room that `reserve` makes, that many elements can be added without another buffer, and
/// reserving once more changes nothing. `reserve` never makes the capacity smaller.
pub proof fn law_reserve_then_push<T>(cap: nat, need: nat)
    requires
        need <= usize::MAX,
    ensures
        need <= layout::reserved_capacity::<T>(cap, need),
        cap <= layout::reserved_capacity::<T>(cap, need),
        layout::grown_capacity::<T>(layout::reserved_capacity::<T>(cap, need), need)
            == layout::reserved_capacity::<T>(cap, need),
        layout::reserved_capacity::<T>(layout::reserved_capacity::<T>(cap, need), need)
            == layout::reserved_capacity::<T>(cap, need),
{
    layout::lemma_grown_capacity_has_room::<T>(cap, need);
}

/// Elements that can be added one by one can be reserved for, and lead to the same capacity.
pub proof fn law_reserve_grows_as_push_does<T>(cap: nat, need: nat)
    requires
        need <= usize::MAX,
        layout::can_hold::<T>(cap, need),
    ensures
        layout::can_reserve::<T>(cap, need),
        layout::reserved_capacity::<T>(cap, need) == layout::grown_capacity::<T>(cap, need),
{
    layout::lemma_grown_capacity_has_room::<T>(cap, need);
    if need > cap {
        layout::lemma_fits_smaller::<T>(need, layout::grown_capacity::<T>(cap, need));
    }
}

// Keeping some elements.

/// The elements of `part` are elements of `s`, found at places that only go up.
pub open spec fn in_order_at<T>(part: Seq<T>, s: Seq<T>, places: Seq<int>) -> bool {
    &&& places.len() == part.len()
    &&& forall|k: int| #![trigger places[k]]
        0 <= k < places.len() ==> 0 <= places[k] < s.len() && part[k] == s[places[k]]
    &&& forall|j: int, k: int| 0 <= j < k < places.len() ==> places[j] < places[k]
}

/// The places of the marks that are set.
pub open spec fn marked_places(keep: Seq<bool>) -> Seq<int> {
    retain::marked(Seq::new(keep.len(), |i: int| i), keep)
}

/// What `retain` keeps is kept in order: the elements that are left are found, one after the other,
/// at places that only go up and that are marked, and every marked place is among them.
pub proof fn law_retain_keeps_the_order<T>(s: Seq<T>, keep: Seq<bool>)
    requires
        keep.len() == s.len(),
    ensures
        in_order_at(retain::marked(s, keep), s, marked_places(keep)),
        marked_places(keep).len() == retain::marked(s, keep).len(),
        forall|k: int| #![trigger marked_places(keep)[k]]
            0 <= k < marked_places(keep).len() ==> {
                &&& 0 <= marked_places(keep)[k] < s.len()
                &&& keep[marked_places(keep)[k]]
                &&& retain::marked(s, keep)[k] == s[marked_places(keep)[k]]
            },
        forall|j: int, k: int|
            0 <= j < k < marked_places(keep).len() ==> marked_places(keep)[j] < marked_places(
                keep,
            )[k],
        forall|i: int| #![trigger keep[i]]
            0 <= i < s.len() && keep[i] ==> marked_places(keep).contains(i),
    decreases s.len(),
{
    let all = Seq::new(keep.len(), |i: int| i);
    if s.len() > 0 {
        let (t, u) = (s.drop_last(), keep.drop_last());
        law_retain_keeps_the_order(t, u);
        assert(all.drop_last() == Seq::new(u.len(), |i: int| i));
        let before = marked_places(u);
        let after = marked_places(keep);
        assert(after == if keep.last() {
            before.push(s.len() - 1)
        } else {
            before
        });
        let (x, y) = (retain::marked(t, u), retain::marked(s, keep));
        assert forall|k: int| #![trigger after[k]] 0 <= k < after.len() implies 0 <= after[k]
            < s.len() && y[k] == s[after[k]] by {
            if k < before.len() {
                assert(before[k] == after[k]);
                assert(x[k] == y[k]);
                assert(t[before[k]] == s[before[k]]);
            }
        }
        assert forall|j: int, k: int| 0 <= j < k < after.len() implies after[j] < after[k] by {
            assert(before[j] == after[j]);
            if k < before.len() {
                assert(before[k] == after[k]);
            }
        }
        assert forall|k: int| #![trigger after[k]] 0 <= k < after.len() implies keep[after[k]] by {
            if k < before.len() {
                assert(before[k] == after[k]);
                assert(u[before[k]] == keep[before[k]]);
            }
        }
        assert forall|i: int| #![trigger keep[i]] 0 <= i < s.len() && keep[i] implies after.contains(
            i,
        ) by {
            if i < t.len() {
                assert(u[i] == keep[i]);
                let k = choose|k: int| 0 <= k < before.len() && before[k] == i;
                assert(after[k] == i);
            } else {
                assert(after[after.len() - 1] == i);
            }
        }
    }
}

/// Each mark speaks for its own element: keeping some of two parts, one after the other, is keeping
/// some of the whole.
pub proof fn law_retain_in_parts<T>(s: Seq<T>, keep: Seq<bool>, t: Seq<T>, further: Seq<bool>)
    requires
        keep.len() == s.len(),
        further.len() == t.len(),
    ensures
        retain::marked(s + t, keep + further) == retain::marked(s, keep) + retain::marked(
            t,
            further,
        ),
    decreases t.len(),
{
    if t.len() == 0 {
        assert(s + t == s && keep + further == keep);
    } else {
        law_retain_in_parts(s, keep, t.drop_last(), further.drop_last());
        assert((s + t).drop_last() == s + t.drop_last());
        assert((keep + further).drop_last() == keep + further.drop_last());
    }
}

/// An element whose mark is set is kept, and one whose mark is not set is not.
pub proof fn law_retain_goes_by_the_mark<T>(x: T)
    ensures
        retain::marked(seq![x], seq![true]) == seq![x],
        retain::marked(seq![x], seq![false]) == Seq::<T>::empty(),
        retain::marked(Seq::<T>::empty(), Seq::<bool>::empty()) == Seq::<T>::empty(),
{
    reveal_with_fuel(retain::marked, 2);
    assert(seq![x].drop_last() == Seq::<T>::empty());
    assert(seq![true].drop_last() == Seq::<bool>::empty());
    assert(seq![false].drop_last() == Seq::<bool>::empty());
}

/// What is kept and what is not kept make up what was there: nothing is lost, and nothing is there
/// twice.
pub proof fn law_retain_keeps_or_drops_each<T>(s: Seq<T>, keep: Seq<bool>)
    requires
        keep.len() == s.len(),
    ensures
        retain::marked(s, keep).to_multiset().add(
            retain::marked(s, keep.map_values(|k: bool| !k)).to_multiset(),
        ) == s.to_multiset(),
    decreases s.len(),
{
    broadcast use vstd::seq_lib::group_to_multiset_ensures;

    let rejected = keep.map_values(|k: bool| !k);
    let (kept, gone) = (retain::marked(s, keep), retain::marked(s, rejected));
    if s.len() == 0 {
        assert(kept.to_multiset().add(gone.to_multiset()) =~= s.to_multiset());
    } else {
        let (t, u) = (s.drop_last(), keep.drop_last());
        law_retain_keeps_or_drops_each(t, u);
        assert(rejected.drop_last() == u.map_values(|k: bool| !k));
        assert(s == t.push(s.last()));
        assert(kept.to_multiset().add(gone.to_multiset()) =~= s.to_multiset());
    }
}

/// Where the answers of the predicate are those of `pred`, `retain` keeps the elements that satisfy
/// `pred`, and no others.
pub proof fn law_retain_is_filter<T>(s: Seq<T>, keep: Seq<bool>, pred: spec_fn(T) -> bool)
    requires
        keep.len() == s.len(),
        forall|i: int| #![trigger keep[i]] 0 <= i < s.len() ==> keep[i] == pred(s[i]),
    ensures
        retain::marked(s, keep) == s.filter(pred),
    decreases s.len(),
{
    reveal(Seq::filter);
    if s.len() > 0 {
        let (t, u) = (s.drop_last(), keep.drop_last());
        assert forall|i: int| #![trigger u[i]] 0 <= i < t.len() implies u[i] == pred(t[i]) by {
            assert(u[i] == keep[i]);
        }
        law_retain_is_filter(t, u, pred);
    }
}

/// An element is left after `retain` if and only if it was there and satisfies the predicate.
/// Retaining once more by the same predicate changes nothing.
pub proof fn law_retain_twice<T>(s: Seq<T>, pred: spec_fn(T) -> bool)
    ensures
        forall|x: T| #[trigger] s.filter(pred).contains(x) <==> s.contains(x) && pred(x),
        s.filter(pred).filter(pred) == s.filter(pred),
    decreases s.len(),
{
    reveal(Seq::filter);
    if s.len() > 0 {
        let t = s.drop_last();
        law_retain_twice(t, pred);
        assert forall|x: T| #[trigger] s.filter(pred).contains(x) <==> s.contains(x) && pred(x) by {
            assert(s == t.push(s.last()));
            if s.contains(x) && x != s.last() {
                let i = choose|i: int| 0 <= i < s.len() && s[i] == x;
                assert(t[i] == x);
            }
            if t.contains(x) {
                let i = choose|i: int| 0 <= i < t.len() && t[i] == x;
                assert(s[i] == x);
            }
            if pred(s.last()) {
                let f = t.filter(pred);
                assert(f.push(s.last())[f.len() as int] == s.last());
                if f.contains(x) {
                    let i = choose|i: int| 0 <= i < f.len() && f[i] == x;
                    assert(f.push(s.last())[i] == x);
                }
                if f.push(s.last()).contains(x) && x != s.last() {
                    let i = choose|i: int| 0 <= i < f.len() + 1 && f.push(s.last())[i] == x;
                    assert(f[i] == x);
                }
            }
            assert(s[s.len() - 1] == s.last());
        }
        if pred(s.last()) {
            assert(t.filter(pred).push(s.last()).drop_last() == t.filter(pred));
        }
    }
}

// Dropping repetitions.

/// `dedup` keeps at least one element where there is one, and adds none.
proof fn lemma_deduped_len<T>(s: Seq<T>, same: spec_fn(T, T) -> bool)
    ensures
        s.len() > 0 ==> dedup::deduped(s, same).len() > 0,
        dedup::deduped(s, same).len() <= s.len(),
    decreases s.len(),
{
    if s.len() > 1 {
        lemma_deduped_len(s.drop_last(), same);
    }
}

/// `dedup` leaves at least one element where there was one, and no more than there were.
pub proof fn law_dedup_is_not_empty<T>(s: Seq<T>, same: spec_fn(T, T) -> bool)
    ensures
        s.len() > 0 ==> dedup::deduped(s, same).len() > 0,
        dedup::deduped(s, same).len() <= s.len(),
{
    lemma_deduped_len(s, same);
}

/// An element at the end is dropped where it is the same as the last one kept before it, and is kept
/// where it is not. It changes nothing for the elements in front of it.
pub proof fn law_dedup_decides_one_by_one<T>(s: Seq<T>, x: T, same: spec_fn(T, T) -> bool)
    ensures
        dedup::deduped(Seq::<T>::empty(), same) == Seq::<T>::empty(),
        dedup::deduped(seq![x], same) == seq![x],
        s.len() > 0 && same(x, dedup::deduped(s, same).last()) ==> dedup::deduped(s.push(x), same)
            == dedup::deduped(s, same),
        s.len() > 0 && !same(x, dedup::deduped(s, same).last()) ==> dedup::deduped(s.push(x), same)
            == dedup::deduped(s, same).push(x),
{
    assert(s.push(x).drop_last() == s);
}

/// Each comparison of `dedup_by` settles the last element kept so far, as the comparison left it,
/// and keeps or drops the element in question, as the comparison left that one.
pub proof fn law_comparisons_decide_one_by_one<T>(
    s: Seq<T>,
    steps: Seq<dedup::Comparison<T>>,
    step: dedup::Comparison<T>,
)
    requires
        s.len() > 0,
    ensures
        dedup::replay(s, Seq::empty()) == seq![s[0]],
        dedup::replay(s, steps.push(step)).len() == dedup::replay(s, steps).len() + if step.same {
            0int
        } else {
            1
        },
        dedup::replay(s, steps).len() > 0,
        dedup::replay(s, steps.push(step)).take(dedup::replay(s, steps).len() - 1) == dedup::replay(
            s,
            steps,
        ).drop_last(),
        dedup::replay(s, steps.push(step))[dedup::replay(s, steps).len() - 1] == step.kept_after,
        !step.same ==> dedup::replay(s, steps.push(step)).last() == step.item_after,
        dedup::discarded(Seq::<dedup::Comparison<T>>::empty()) == Seq::<T>::empty(),
        step.same ==> dedup::discarded(steps.push(step)) == dedup::discarded(steps).push(
            step.item_after,
        ),
        !step.same ==> dedup::discarded(steps.push(step)) == dedup::discarded(steps),
{
    assert(steps.push(step).drop_last() == steps);
    assert(s.take(1) == seq![s[0]]);
    law_comparisons_keep_or_drop(s, steps);
}

/// Each element after the first is kept or dropped by its comparison, and the first is kept.
pub proof fn law_comparisons_keep_or_drop<T>(s: Seq<T>, steps: Seq<dedup::Comparison<T>>)
    ensures
        s.len() > 0 ==> dedup::replay(s, steps).len() + dedup::discarded(steps).len() == steps.len()
            + 1,
        s.len() > 0 ==> dedup::replay(s, steps).len() > 0,
        s.len() == 0 ==> dedup::replay(s, steps) == Seq::<T>::empty(),
        s.len() == 0 ==> dedup::step_count(s.len()) == 0,
        s.len() > 0 ==> dedup::step_count(s.len()) == s.len() - 1,
        steps.len() == 0 ==> dedup::discarded(steps) == Seq::<T>::empty(),
    decreases steps.len(),
{
    if steps.len() > 0 {
        law_comparisons_keep_or_drop(s, steps.drop_last());
    }
}

/// The comparisons are made in turn: the first is of the second element with the first, and each
/// further one is of the next element with the last that was kept so far.
pub proof fn law_comparisons_are_in_turn<T>(s: Seq<T>, steps: Seq<dedup::Comparison<T>>)
    ensures
        dedup::in_turn(s, steps) <==> forall|i: int| #![trigger steps[i]]
            0 <= i < steps.len() ==> steps[i].item == s[i + 1] && steps[i].kept == dedup::replay(
                s,
                steps.take(i),
            ).last(),
{
    if dedup::in_turn(s, steps) {
        assert forall|i: int| #![trigger steps[i]] 0 <= i < steps.len() implies steps[i].item
            == s[i + 1] && steps[i].kept == dedup::replay(s, steps.take(i)).last() by {
            assert(dedup::step_in_turn(s, steps, i));
        }
    }
}

/// Comparing by `==` is a call of `eq` with the two elements, in their order.
pub proof fn law_comparing_is_a_call_of_eq<T: PartialEq>(a: T, b: T)
    ensures
        dedup::compared_equal(a, b, true) <==> call_ensures(T::eq, (&a, &b), true),
        dedup::compared_equal(a, b, false) <==> call_ensures(T::eq, (&a, &b), false),
{
}

/// After `dedup` no element is the same as the one before it, and the first element is the one that
/// was first.
pub proof fn law_dedup_leaves_no_repetition<T>(s: Seq<T>, same: spec_fn(T, T) -> bool)
    ensures
        forall|i: int| #![trigger dedup::deduped(s, same)[i]]
            0 < i < dedup::deduped(s, same).len() ==> !same(
                dedup::deduped(s, same)[i],
                dedup::deduped(s, same)[i - 1],
            ),
        s.len() > 0 ==> dedup::deduped(s, same)[0] == s[0],
    decreases s.len(),
{
    if s.len() > 1 {
        law_dedup_leaves_no_repetition(s.drop_last(), same);
        lemma_deduped_len(s.drop_last(), same);
        let kept = dedup::deduped(s.drop_last(), same);
        assert forall|i: int| #![trigger dedup::deduped(s, same)[i]]
            0 < i < dedup::deduped(s, same).len() implies !same(
            dedup::deduped(s, same)[i],
            dedup::deduped(s, same)[i - 1],
        ) by {
            if i < kept.len() {
                assert(!same(kept[i], kept[i - 1]));
            }
        }
    }
}

/// `dedup` leaves a vector alone in which no element is the same as the one before it.
pub proof fn law_dedup_keeps_what_does_not_repeat<T>(s: Seq<T>, same: spec_fn(T, T) -> bool)
    requires
        forall|i: int| #![trigger s[i]] 0 < i < s.len() ==> !same(s[i], s[i - 1]),
    ensures
        dedup::deduped(s, same) == s,
    decreases s.len(),
{
    if s.len() > 1 {
        let t = s.drop_last();
        assert forall|i: int| #![trigger t[i]] 0 < i < t.len() implies !same(t[i], t[i - 1]) by {
            assert(t[i] == s[i]);
        }
        law_dedup_keeps_what_does_not_repeat(t, same);
        assert(!same(s[s.len() - 1], s[s.len() - 2]));
        assert(t.push(s.last()) == s);
    }
}

/// Doing it a second time changes nothing.
pub proof fn law_dedup_twice<T>(s: Seq<T>, same: spec_fn(T, T) -> bool)
    ensures
        dedup::deduped(dedup::deduped(s, same), same) == dedup::deduped(s, same),
{
    law_dedup_leaves_no_repetition(s, same);
    law_dedup_keeps_what_does_not_repeat(dedup::deduped(s, same), same);
}

/// The marks of the elements that `dedup` keeps.
pub open spec fn dedup_marks<T>(s: Seq<T>, same: spec_fn(T, T) -> bool) -> Seq<bool> {
    Seq::new(
        s.len(),
        |i: int| i == 0 || !same(s[i], dedup::deduped(s.take(i), same).last()),
    )
}

/// What `dedup` keeps is kept in order.
pub proof fn law_dedup_keeps_the_order<T>(s: Seq<T>, same: spec_fn(T, T) -> bool)
    ensures
        dedup::deduped(s, same) == retain::marked(s, dedup_marks(s, same)),
        in_order_at(dedup::deduped(s, same), s, marked_places(dedup_marks(s, same))),
    decreases s.len(),
{
    let keep = dedup_marks(s, same);
    if s.len() > 0 {
        let t = s.drop_last();
        law_dedup_keeps_the_order(t, same);
        assert(s.take(s.len() - 1) == t);
        assert(keep.drop_last() == dedup_marks(t, same)) by {
            assert forall|i: int| 0 <= i < t.len() implies keep[i] == #[trigger] dedup_marks(
                t,
                same,
            )[i] by {
                assert(s.take(i) == t.take(i));
            }
        }
        if s.len() == 1 {
            assert(s == retain::marked(t, keep.drop_last()).push(s.last()));
        }
    }
    law_retain_keeps_the_order(s, keep);
}

/// Every element is still there, or one is that is the same.
pub proof fn law_dedup_loses_nothing<T>(s: Seq<T>, same: spec_fn(T, T) -> bool, i: int)
    requires
        0 <= i < s.len(),
        forall|x: T| #[trigger] same(x, x),
    ensures
        exists|k: int|
            0 <= k < dedup::deduped(s, same).len() && same(
                s[i],
                #[trigger] dedup::deduped(s, same)[k],
            ),
    decreases s.len(),
{
    let d = dedup::deduped(s, same);
    lemma_deduped_len(s, same);
    if s.len() == 1 {
        assert(same(s[i], d[0]));
    } else {
        let t = s.drop_last();
        let kept = dedup::deduped(t, same);
        lemma_deduped_len(t, same);
        if i < t.len() {
            law_dedup_loses_nothing(t, same, i);
            let k = choose|k: int| 0 <= k < kept.len() && same(t[i], #[trigger] kept[k]);
            assert(d[k] == kept[k]);
        } else if same(s.last(), kept.last()) {
            assert(same(s[i], d[kept.len() - 1]));
        } else {
            assert(same(s[i], d[kept.len() as int]));
        }
    }
}

/// Each element is at most as large as those behind it.
pub open spec fn sorted<T>(s: Seq<T>, le: spec_fn(T, T) -> bool) -> bool {
    forall|i: int, j: int| 0 <= i < j < s.len() ==> le(#[trigger] s[i], #[trigger] s[j])
}

/// If the vector is sorted, and two elements are the same just if neither is larger, then `dedup`
/// drops all duplicates: no two elements that are left are the same. The vector stays sorted.
pub proof fn law_dedup_of_sorted_drops_all_duplicates<T>(
    s: Seq<T>,
    same: spec_fn(T, T) -> bool,
    le: spec_fn(T, T) -> bool,
)
    requires
        sorted(s, le),
        forall|x: T, y: T, z: T| #[trigger] le(x, y) && #[trigger] le(y, z) ==> le(x, z),
        forall|x: T, y: T| #[trigger] same(x, y) <==> le(x, y) && le(y, x),
    ensures
        sorted(dedup::deduped(s, same), le),
        forall|i: int, j: int|
            0 <= i < j < dedup::deduped(s, same).len() ==> !same(
                #[trigger] dedup::deduped(s, same)[i],
                #[trigger] dedup::deduped(s, same)[j],
            ),
{
    let d = dedup::deduped(s, same);
    let places = marked_places(dedup_marks(s, same));
    law_dedup_keeps_the_order(s, same);
    law_dedup_leaves_no_repetition(s, same);
    assert forall|i: int, j: int| 0 <= i < j < d.len() implies le(
        #[trigger] d[i],
        #[trigger] d[j],
    ) by {
        assert(places[i] < places[j]);
        assert(le(s[places[i]], s[places[j]]));
    }
    assert forall|i: int, j: int| 0 <= i < j < d.len() implies !same(
        #[trigger] d[i],
        #[trigger] d[j],
    ) by {
        if same(d[i], d[j]) {
            let n = i + 1;
            assert(!same(d[n], d[i]));
            assert(le(d[i], d[n]));
            if n < j {
                assert(le(d[n], d[j]));
                assert(le(d[j], d[i]));
                assert(le(d[n], d[i]));
            }
            assert(same(d[n], d[i]));
        }
    }
}

// Comparing.

/// Where the elements are compared by a symmetric and transitive `==`, so are the vectors.
pub proof fn law_eq_is_an_equivalence<T: PartialEq>()
    requires
        vstd::laws_eq::obeys_eq::<T>(),
    ensures
        vstd::laws_eq::obeys_eq::<ThinVec<T>>(),
{
    reveal(vstd::laws_eq::obeys_eq_spec_properties);
    assert forall|x: ThinVec<T>, y: ThinVec<T>| #[trigger]
        x.eq_spec(&y) implies y.eq_spec(&x) by {
        assert forall|i: int| 0 <= i < y@.len() implies #[trigger] y@[i].eq_spec(&x@[i]) by {
            assert(x@[i].eq_spec(&y@[i]));
        }
    }
    assert forall|x: ThinVec<T>, y: ThinVec<T>, z: ThinVec<T>|
        x.eq_spec(&y) && #[trigger] y.eq_spec(&z) implies #[trigger] x.eq_spec(&z) by {
        assert forall|i: int| 0 <= i < x@.len() implies #[trigger] x@[i].eq_spec(&z@[i]) by {
            assert(x@[i].eq_spec(&y@[i]));
            assert(y@[i].eq_spec(&z@[i]));
        }
    }
}

/// Where `==` on the elements means that they are the same value, `==` on vectors means that they
/// hold the same elements in the same order, whatever their capacities.
pub proof fn law_eq_means_same_elements<T: PartialEq>(x: ThinVec<T>, y: ThinVec<T>)
    requires
        vstd::laws_eq::obeys_concrete_eq::<T>(),
    ensures
        x.eq_spec(&y) <==> x@ == y@,
{
    reveal(vstd::laws_eq::obeys_concrete_eq);
    if x.eq_spec(&y) {
        assert forall|i: int| 0 <= i < x@.len() implies x@[i] == y@[i] by {
            assert(x@[i].eq_spec(&y@[i]));
        }
        assert(x@ =~= y@);
    }
}

/// `==` on vectors is `==` on the lengths and on each pair of elements.
pub proof fn law_eq_is_by_elements<T: PartialEq>(x: ThinVec<T>, y: ThinVec<T>)
    ensures
        ThinVec::<T>::obeys_eq_spec() <==> T::obeys_eq_spec(),
        x.eq_spec(&y) <==> x@.len() == y@.len() && forall|i: int|
            0 <= i < x@.len() ==> #[trigger] x@[i].eq_spec(&y@[i]),
        x.eq_spec(&y) <==> compare::all_equal(x@, y@),
{
}

/// The first elements that do not compare as equal decide, whatever comes after them and however long
/// the sequences are: the order of the sequences is that of these two elements.
pub proof fn law_first_difference_decides<T: PartialOrd>(a: Seq<T>, b: Seq<T>, n: int)
    requires
        0 <= n < a.len(),
        n < b.len(),
        forall|i: int| 0 <= i < n ==> #[trigger] a[i].partial_cmp_spec(&b[i]) == Some(
            Ordering::Equal,
        ),
        a[n].partial_cmp_spec(&b[n]) != Some(Ordering::Equal),
    ensures
        compare::lexicographic(a, b) == a[n].partial_cmp_spec(&b[n]),
    decreases n,
{
    if n > 0 {
        let (x, y) = (a.drop_first(), b.drop_first());
        assert(a[0].partial_cmp_spec(&b[0]) == Some(Ordering::Equal));
        assert forall|i: int| 0 <= i < n - 1 implies #[trigger] x[i].partial_cmp_spec(&y[i])
            == Some(Ordering::Equal) by {
            assert(a[i + 1].partial_cmp_spec(&b[i + 1]) == Some(Ordering::Equal));
        }
        law_first_difference_decides(x, y, n - 1);
    }
}

/// Where all elements compare as equal as far as both sequences go, the lengths decide: the shorter
/// sequence is the smaller one.
pub proof fn law_lengths_decide_last<T: PartialOrd>(a: Seq<T>, b: Seq<T>)
    requires
        forall|i: int| 0 <= i < a.len() && i < b.len() ==> #[trigger] a[i].partial_cmp_spec(&b[i])
            == Some(Ordering::Equal),
    ensures
        a.len() < b.len() ==> compare::lexicographic(a, b) == Some(Ordering::Less),
        a.len() == b.len() ==> compare::lexicographic(a, b) == Some(Ordering::Equal),
        a.len() > b.len() ==> compare::lexicographic(a, b) == Some(Ordering::Greater),
    decreases a.len(),
{
    if a.len() > 0 && b.len() > 0 {
        let (x, y) = (a.drop_first(), b.drop_first());
        assert(a[0].partial_cmp_spec(&b[0]) == Some(Ordering::Equal));
        assert forall|i: int| 0 <= i < x.len() && i < y.len() implies #[trigger]
            x[i].partial_cmp_spec(&y[i]) == Some(Ordering::Equal) by {
            assert(a[i + 1].partial_cmp_spec(&b[i + 1]) == Some(Ordering::Equal));
        }
        law_lengths_decide_last(x, y);
    }
}

/// The first elements that differ decide, whatever comes after them and however long the sequences
/// are: the order of the sequences is that of these two elements.
pub proof fn law_first_difference_decides_totally<T: Ord>(a: Seq<T>, b: Seq<T>, n: int)
    requires
        0 <= n < a.len(),
        n < b.len(),
        forall|i: int| 0 <= i < n ==> #[trigger] a[i].cmp_spec(&b[i]) == Ordering::Equal,
        a[n].cmp_spec(&b[n]) != Ordering::Equal,
    ensures
        compare::total_lexicographic(a, b) == a[n].cmp_spec(&b[n]),
    decreases n,
{
    if n > 0 {
        let (x, y) = (a.drop_first(), b.drop_first());
        assert(a[0].cmp_spec(&b[0]) == Ordering::Equal);
        assert forall|i: int| 0 <= i < n - 1 implies #[trigger] x[i].cmp_spec(&y[i])
            == Ordering::Equal by {
            assert(a[i + 1].cmp_spec(&b[i + 1]) == Ordering::Equal);
        }
        law_first_difference_decides_totally(x, y, n - 1);
    }
}

/// Where no elements differ as far as both sequences go, the lengths decide: the shorter sequence is
/// the smaller one.
pub proof fn law_lengths_decide_last_totally<T: Ord>(a: Seq<T>, b: Seq<T>)
    requires
        forall|i: int| 0 <= i < a.len() && i < b.len() ==> #[trigger] a[i].cmp_spec(&b[i])
            == Ordering::Equal,
    ensures
        a.len() < b.len() ==> compare::total_lexicographic(a, b) == Ordering::Less,
        a.len() == b.len() ==> compare::total_lexicographic(a, b) == Ordering::Equal,
        a.len() > b.len() ==> compare::total_lexicographic(a, b) == Ordering::Greater,
    decreases a.len(),
{
    if a.len() > 0 && b.len() > 0 {
        let (x, y) = (a.drop_first(), b.drop_first());
        assert(a[0].cmp_spec(&b[0]) == Ordering::Equal);
        assert forall|i: int| 0 <= i < x.len() && i < y.len() implies #[trigger] x[i].cmp_spec(
            &y[i],
        ) == Ordering::Equal by {
            assert(a[i + 1].cmp_spec(&b[i + 1]) == Ordering::Equal);
        }
        law_lengths_decide_last_totally(x, y);
    }
}

/// `<` and its like on vectors go by the elements, in order, and are defined where those of the
/// elements are.
pub proof fn law_order_is_lexicographic<T: PartialOrd>(x: ThinVec<T>, y: ThinVec<T>)
    ensures
        ThinVec::<T>::obeys_partial_cmp_spec() <==> T::obeys_partial_cmp_spec(),
        x.partial_cmp_spec(&y) == compare::lexicographic(x@, y@),
{
}

/// What decides an order: `n` pairs of elements were compared and found equal, and then either the
/// next pair was compared and was not, or one sequence was at its end and the lengths were compared.
pub proof fn law_order_is_decided_by_one_pair<T: PartialOrd>(
    a: Seq<T>,
    b: Seq<T>,
    n: int,
    order: Option<Ordering>,
)
    requires
        compare::partially_decided_at(a, b, n, order),
    ensures
        0 <= n <= a.len(),
        n <= b.len(),
        forall|i: int| #![trigger a[i]]
            0 <= i < n ==> call_ensures(T::partial_cmp, (&a[i], &b[i]), Some(Ordering::Equal)),
        n < a.len() && n < b.len() ==> order != Some(Ordering::Equal) && call_ensures(
            T::partial_cmp,
            (&a[n], &b[n]),
            order,
        ),
        n == a.len() < b.len() ==> order == Some(Ordering::Less),
        n == a.len() == b.len() ==> order == Some(Ordering::Equal),
        n == b.len() < a.len() ==> order == Some(Ordering::Greater),
{
}

/// What decides a total order: `n` pairs of elements were compared and found equal, and then either
/// the next pair was compared and was not, or one sequence was at its end and the lengths were
/// compared.
pub proof fn law_total_order_is_decided_by_one_pair<T: Ord>(
    a: Seq<T>,
    b: Seq<T>,
    n: int,
    order: Ordering,
)
    requires
        compare::decided_at(a, b, n, order),
    ensures
        0 <= n <= a.len(),
        n <= b.len(),
        forall|i: int| #![trigger a[i]]
            0 <= i < n ==> call_ensures(T::cmp, (&a[i], &b[i]), Ordering::Equal),
        n < a.len() && n < b.len() ==> order != Ordering::Equal && call_ensures(
            T::cmp,
            (&a[n], &b[n]),
            order,
        ),
        n == a.len() < b.len() ==> order == Ordering::Less,
        n == a.len() == b.len() ==> order == Ordering::Equal,
        n == b.len() < a.len() ==> order == Ordering::Greater,
{
}

/// Two sequences compare as equal just if their elements do.
pub proof fn law_order_agrees_with_eq<T: PartialOrd>(a: Seq<T>, b: Seq<T>)
    requires
        vstd::laws_cmp::obeys_partial_cmp_spec_properties::<T>(),
    ensures
        compare::lexicographic(a, b) == Some(Ordering::Equal) <==> compare::all_equal(a, b),
        compare::lexicographic(a, b) == Some(Ordering::Equal) <==> a.len() == b.len() && forall|
            i: int,
        | 0 <= i < a.len() ==> #[trigger] a[i].eq_spec(&b[i]),
    decreases a.len(),
{
    reveal(vstd::laws_cmp::obeys_partial_cmp_spec_properties);
    if a.len() > 0 && b.len() > 0 {
        let (x, y) = (a.drop_first(), b.drop_first());
        law_order_agrees_with_eq(x, y);
        if compare::all_equal(a, b) {
            assert(a[0].eq_spec(&b[0]));
            assert forall|i: int| 0 <= i < x.len() implies #[trigger] x[i].eq_spec(&y[i]) by {
                assert(a[i + 1].eq_spec(&b[i + 1]));
            }
        }
        if a[0].eq_spec(&b[0]) && compare::all_equal(x, y) {
            assert forall|i: int| 0 <= i < a.len() implies #[trigger] a[i].eq_spec(&b[i]) by {
                if i > 0 {
                    assert(x[i - 1].eq_spec(&y[i - 1]));
                }
            }
        }
    }
}

/// One sequence is smaller than another just if that one is larger.
pub proof fn law_order_is_antisymmetric<T: PartialOrd>(a: Seq<T>, b: Seq<T>)
    requires
        vstd::laws_cmp::obeys_partial_cmp_spec_properties::<T>(),
    ensures
        compare::lexicographic(a, b) == Some(Ordering::Less) <==> compare::lexicographic(b, a)
            == Some(Ordering::Greater),
    decreases a.len(),
{
    reveal(vstd::laws_cmp::obeys_partial_cmp_spec_properties);
    reveal(vstd::laws_eq::obeys_eq_spec_properties);
    if a.len() > 0 && b.len() > 0 {
        law_order_is_antisymmetric(a.drop_first(), b.drop_first());
        let (forth, back) = (a[0].partial_cmp_spec(&b[0]), b[0].partial_cmp_spec(&a[0]));
        assert(forth == Some(Ordering::Equal) <==> a[0].eq_spec(&b[0]));
        assert(back == Some(Ordering::Equal) <==> b[0].eq_spec(&a[0]));
        assert(forth == Some(Ordering::Less) <==> back == Some(Ordering::Greater));
    }
}

/// `cmp` and `partial_cmp` agree where those of the elements do.
pub proof fn law_cmp_agrees_with_partial_cmp<T: Ord>(a: Seq<T>, b: Seq<T>)
    requires
        vstd::laws_cmp::obeys_cmp_ord::<T>(),
    ensures
        compare::lexicographic(a, b) == Some(compare::total_lexicographic(a, b)),
    decreases a.len(),
{
    reveal(vstd::laws_cmp::obeys_cmp_ord);
    if a.len() > 0 && b.len() > 0 {
        law_cmp_agrees_with_partial_cmp(a.drop_first(), b.drop_first());
        assert(a[0].partial_cmp_spec(&b[0]) == Some(a[0].cmp_spec(&b[0])));
    }
}

/// What is smaller than, or compares as equal to, something smaller is smaller.
proof fn lemma_mixed_steps<T: Ord>(x: T, y: T, z: T)
    requires
        vstd::laws_cmp::obeys_cmp::<T>(),
        x.cmp_spec(&y) != Ordering::Greater,
        y.cmp_spec(&z) != Ordering::Greater,
    ensures
        x.cmp_spec(&z) == if x.cmp_spec(&y) == Ordering::Equal {
            y.cmp_spec(&z)
        } else {
            Ordering::Less
        },
{
    reveal(vstd::laws_eq::obeys_eq_spec_properties);
    reveal(vstd::laws_cmp::obeys_partial_cmp_spec_properties);
    reveal(vstd::laws_cmp::obeys_cmp_partial_ord);
    reveal(vstd::laws_cmp::obeys_cmp_ord);
    assert(x.partial_cmp_spec(&y) == Some(x.cmp_spec(&y)));
    assert(y.partial_cmp_spec(&x) == Some(y.cmp_spec(&x)));
    assert(y.partial_cmp_spec(&z) == Some(y.cmp_spec(&z)));
    assert(z.partial_cmp_spec(&y) == Some(z.cmp_spec(&y)));
    assert(x.partial_cmp_spec(&z) == Some(x.cmp_spec(&z)));
    assert(z.partial_cmp_spec(&x) == Some(z.cmp_spec(&x)));
    assert(x.eq_spec(&y) <==> y.eq_spec(&x));
    assert(z.eq_spec(&y) <==> y.eq_spec(&z));
    assert(x.eq_spec(&z) <==> z.eq_spec(&x));
    assert(x.eq_spec(&y) && y.eq_spec(&z) ==> x.eq_spec(&z));
    assert(x.eq_spec(&z) && z.eq_spec(&y) ==> x.eq_spec(&y));
    assert(y.eq_spec(&x) && x.eq_spec(&z) ==> y.eq_spec(&z));
}

/// What is smaller than something smaller is smaller.
pub proof fn law_cmp_is_transitive<T: Ord>(a: Seq<T>, b: Seq<T>, c: Seq<T>)
    requires
        vstd::laws_cmp::obeys_cmp::<T>(),
        compare::total_lexicographic(a, b) == Ordering::Less,
        compare::total_lexicographic(b, c) == Ordering::Less,
    ensures
        compare::total_lexicographic(a, c) == Ordering::Less,
    decreases a.len(),
{
    if a.len() > 0 && b.len() > 0 && c.len() > 0 {
        lemma_mixed_steps(a[0], b[0], c[0]);
        if a[0].cmp_spec(&b[0]) == Ordering::Equal && b[0].cmp_spec(&c[0]) == Ordering::Equal {
            law_cmp_is_transitive(a.drop_first(), b.drop_first(), c.drop_first());
        }
    }
}

/// A sequence that goes on where another stops is the larger one.
pub proof fn law_prefix_is_smaller<T: PartialOrd>(a: Seq<T>, rest: Seq<T>)
    requires
        forall|i: int| 0 <= i < a.len() ==> #[trigger] a[i].partial_cmp_spec(&a[i]) == Some(
            Ordering::Equal,
        ),
        rest.len() > 0,
    ensures
        compare::lexicographic(a, a + rest) == Some(Ordering::Less),
    decreases a.len(),
{
    if a.len() > 0 {
        let x = a.drop_first();
        assert(a[0].partial_cmp_spec(&a[0]) == Some(Ordering::Equal));
        assert forall|i: int| 0 <= i < x.len() implies #[trigger] x[i].partial_cmp_spec(&x[i])
            == Some(Ordering::Equal) by {
            assert(a[i + 1].partial_cmp_spec(&a[i + 1]) == Some(Ordering::Equal));
        }
        law_prefix_is_smaller(x, rest);
        assert((a + rest).drop_first() == x + rest);
        assert((a + rest)[0] == a[0]);
    }
}

// Cloning and going through the elements.

/// Where cloning an element gives back the same value, `clone` gives back the same elements, and
/// `extend_from_slice` adds just those of the slice.
pub proof fn law_clone_keeps_the_elements<T: Clone>(s: Seq<T>, copy: Seq<T>)
    requires
        forall|x: T, y: T| #[trigger] vstd::pervasive::strictly_cloned(x, y) ==> x == y,
        copy.len() == s.len(),
        forall|i: int| #![trigger copy[i]]
            0 <= i < copy.len() ==> vstd::pervasive::strictly_cloned(s[i], copy[i]),
    ensures
        copy == s,
{
    assert forall|i: int| 0 <= i < copy.len() implies copy[i] == s[i] by {
        assert(vstd::pervasive::strictly_cloned(s[i], copy[i]));
    }
    assert(copy =~= s);
}

/// What is taken from the front, what is left, and what was taken from the back make up the vector
/// that is gone through: one more step from either end keeps it so.
pub proof fn law_iteration_meets_in_the_middle<T>(
    front: Seq<T>,
    rest: Seq<T>,
    back: Seq<T>,
    whole: Seq<T>,
)
    requires
        front + rest + back == whole,
        rest.len() > 0,
    ensures
        front.push(rest[0]) + rest.drop_first() + back == whole,
        front + rest.drop_last() + (seq![rest.last()] + back) == whole,
{
    assert(front.push(rest[0]) + rest.drop_first() + back =~= front + rest + back);
    assert(front + rest.drop_last() + (seq![rest.last()] + back) =~= front + rest + back);
}

/// Going through a vector yields the elements that are left, first to last, and then stops: that many
/// steps from now, and from the back just as many.
pub proof fn law_iteration_yields_what_is_left<T>(iter: IntoIter<T>, i: int)
    ensures
        iter.obeys_prophetic_iter_laws(),
        iter.remaining() == iter@,
        iter.will_return_none(),
        iter.decrease() == Some(iter@.len()),
        0 <= i < iter@.len() ==> iter.peek(i) == Some(iter@[i]),
        0 <= i < iter@.len() ==> iter.peek_back(i) == Some(iter@[iter@.len() - 1 - i]),
        i < 0 || i >= iter@.len() ==> iter.peek(i) is None && iter.peek_back(i) is None,
{
}

/// The elements of a slice are those that it holds, in order.
pub proof fn law_elements_of_a_slice<T>(slice: &[T])
    ensures
        slices::elements(slice) == slice@,
{
}

/// Exchanging two elements leaves the others where they are, and doing it twice changes nothing.
pub proof fn law_exchange<T>(s: Seq<T>, i: int, j: int)
    requires
        0 <= i < s.len(),
        0 <= j < s.len(),
    ensures
        slices::swapped(s, i, j).len() == s.len(),
        slices::swapped(s, i, j)[i] == s[j],
        slices::swapped(s, i, j)[j] == s[i],
        forall|k: int| #![trigger slices::swapped(s, i, j)[k]]
            0 <= k < s.len() && k != i && k != j ==> slices::swapped(s, i, j)[k]
                == s[k],
        slices::swapped(slices::swapped(s, i, j), i, j) == s,
{
}

/// Adding to an empty vector all that comes out of another gives the same elements.
pub proof fn law_extend_with_all<T>(s: Seq<T>)
    ensures
        Seq::<T>::empty() + s == s,
{
}

} // verus!

//! Slices: reading one as a sequence, and exchanging two of its elements.

use vstd::prelude::*;

verus! {

/// The elements of a slice.
pub open spec fn elements<T>(slice: &[T]) -> Seq<T> {
    slice@
}

/// The sequence `s` with the elements at `i` and `j` exchanged.
pub open spec fn swapped<T>(s: Seq<T>, i: int, j: int) -> Seq<T> {
    s.update(i, s[j]).update(j, s[i])
}

/// Exchanges the elements at `i` and `j`.
pub fn swap_elements<T>(slice: &mut [T], i: usize, j: usize)
    requires
        i <= j < old(slice)@.len(),
    ensures
        final(slice)@ == swapped(old(slice)@, i as int, j as int),
{
    if i < j {
        let (front, back) = slice.split_at_mut(j);
        std::mem::swap(&mut front[i], &mut back[0]);
    }
}

/// Exchanging the first element of a range with the one behind the range moves the range up by one
/// place: it holds the same elements as before, in another order.
pub(crate) proof fn lemma_range_moves_up<T>(s: Seq<T>, start: int, end: int)
    requires
        0 <= start <= end < s.len(),
    ensures
        swapped(s, start, end).subrange(start + 1, end + 1).to_multiset() == s.subrange(
            start,
            end,
        ).to_multiset(),
{
    let before = s.subrange(start, end);
    let after = swapped(s, start, end).subrange(start + 1, end + 1);
    if start < end {
        let rest = s.subrange(start + 1, end);
        assert(before == seq![s[start]] + rest);
        assert(after == rest + seq![s[start]]);
        vstd::seq_lib::lemma_multiset_commutative(seq![s[start]], rest);
        vstd::seq_lib::lemma_multiset_commutative(rest, seq![s[start]]);
        assert(before.to_multiset() =~= after.to_multiset());
    } else {
        assert(before == after);
    }
}

/// A range that grows by an element at its end holds that element too.
pub(crate) proof fn lemma_range_grows<T>(s: Seq<T>, start: int, end: int, others: Seq<T>)
    requires
        0 <= start <= end < s.len(),
        s.subrange(start, end).to_multiset() == others.to_multiset(),
    ensures
        s.subrange(start, end + 1).to_multiset() == others.push(s[end]).to_multiset(),
{
    assert(s.subrange(start, end + 1) == s.subrange(start, end).push(s[end]));
    vstd::seq_lib::to_multiset_build(s.subrange(start, end), s[end]);
    vstd::seq_lib::to_multiset_build(others, s[end]);
}

} // verus!

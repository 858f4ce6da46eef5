//! Dropping elements that repeat the one before them.

use crate::retain;
use crate::slices;
use crate::slices::swap_elements;
use crate::thin_vec::ThinVec;
use vstd::prelude::*;
use vstd::std_specs::cmp::PartialEqSpec;

verus! {

/// One comparison of an element with the last one that was kept: what was compared, what the
/// comparison made of it, and the answer.
pub struct Comparison<T> {
    /// The element in question.
    pub item: T,
    /// What the comparison made of the element in question.
    pub item_after: T,
    /// The last element that was kept.
    pub kept: T,
    /// What the comparison made of the last element that was kept.
    pub kept_after: T,
    /// The two were found to be the same.
    pub same: bool,
}

/// What is kept of the first elements of `s` when the later ones are compared as in `steps`, one
/// step for each.
///
/// The first element is kept. Each further one is kept where it was not found to be the same as the
/// last that was kept. A comparison may change both.
pub open spec fn replay<T>(s: Seq<T>, steps: Seq<Comparison<T>>) -> Seq<T>
    decreases steps.len(),
{
    if s.len() == 0 {
        s
    } else if steps.len() == 0 {
        s.take(1)
    } else {
        let kept = replay(s, steps.drop_last());
        let settled = kept.update(kept.len() - 1, steps.last().kept_after);
        if steps.last().same {
            settled
        } else {
            settled.push(steps.last().item_after)
        }
    }
}

/// Step `i` compares the element whose turn it is with the last one kept so far.
pub open spec fn step_in_turn<T>(s: Seq<T>, steps: Seq<Comparison<T>>, i: int) -> bool {
    &&& steps[i].item == s[i + 1]
    &&& steps[i].kept == replay(s, steps.take(i)).last()
}

/// Each step compares the element whose turn it is with the last one kept so far.
pub open spec fn in_turn<T>(s: Seq<T>, steps: Seq<Comparison<T>>) -> bool {
    forall|i: int| 0 <= i < steps.len() ==> #[trigger] step_in_turn(s, steps, i)
}

/// The number of comparisons that a sequence of length `len` takes.
pub open spec fn step_count(len: nat) -> nat {
    if len == 0 {
        0
    } else {
        (len - 1) as nat
    }
}

/// What stays of `s` when every element is dropped that is the same as the last one kept before it.
pub open spec fn deduped<T>(s: Seq<T>, same: spec_fn(T, T) -> bool) -> Seq<T>
    decreases s.len(),
{
    if s.len() <= 1 {
        s
    } else {
        let kept = deduped(s.drop_last(), same);
        if same(s.last(), kept.last()) {
            kept
        } else {
            kept.push(s.last())
        }
    }
}

/// The elements that are dropped when the comparisons are those of `steps`: those that were found to
/// be the same, as the comparison left them.
pub open spec fn discarded<T>(steps: Seq<Comparison<T>>) -> Seq<T>
    decreases steps.len(),
{
    if steps.len() == 0 {
        Seq::empty()
    } else if steps.last().same {
        discarded(steps.drop_last()).push(steps.last().item_after)
    } else {
        discarded(steps.drop_last())
    }
}

/// A comparison that changes nothing.
pub open spec fn only_looks<T>(step: Comparison<T>) -> bool {
    step.item_after == step.item && step.kept_after == step.kept
}

/// For each element, whether it is kept when the comparisons are those of `steps`.
pub open spec fn keep_marks<T>(s: Seq<T>, steps: Seq<Comparison<T>>) -> Seq<bool> {
    Seq::new(s.len(), |i: int| i == 0 || !steps[i - 1].same)
}

proof fn lemma_replay_len<T>(s: Seq<T>, steps: Seq<Comparison<T>>)
    requires
        s.len() > 0,
    ensures
        1 <= replay(s, steps).len() <= steps.len() + 1,
    decreases steps.len(),
{
    if steps.len() > 0 {
        lemma_replay_len(s, steps.drop_last());
    }
}

/// One more step leaves the earlier ones in turn.
proof fn lemma_in_turn_push<T>(s: Seq<T>, steps: Seq<Comparison<T>>, step: Comparison<T>)
    requires
        in_turn(s, steps),
        step.item == s[steps.len() as int + 1],
        step.kept == replay(s, steps).last(),
    ensures
        in_turn(s, steps.push(step)),
        steps.push(step).drop_last() == steps,
{
    let longer = steps.push(step);
    assert forall|i: int| 0 <= i < longer.len() implies #[trigger] step_in_turn(s, longer, i) by {
        if i < steps.len() {
            assert(longer.take(i) == steps.take(i));
            assert(step_in_turn(s, steps, i));
        } else {
            assert(longer.take(i) == steps);
        }
    }
    assert(longer.drop_last() == steps);
}

/// Comparisons that change nothing keep the elements that they mark.
proof fn lemma_replay_is_marked<T>(s: Seq<T>, steps: Seq<Comparison<T>>, n: int)
    requires
        in_turn(s, steps),
        s.len() == steps.len() + 1,
        0 <= n <= steps.len(),
        forall|i: int| #![trigger steps[i]] 0 <= i < steps.len() ==> only_looks(steps[i]),
    ensures
        replay(s, steps.take(n)) == retain::marked(s.take(n + 1), keep_marks(s, steps).take(n + 1)),
    decreases n,
{
    let keep = keep_marks(s, steps);
    assert(s.take(n + 1).drop_last() == s.take(n));
    assert(keep.take(n + 1).drop_last() == keep.take(n));
    if n == 0 {
        assert(s.take(1) == retain::marked(s.take(0), keep.take(0)).push(s[0]));
    } else {
        let kept = replay(s, steps.take(n - 1));
        lemma_replay_is_marked(s, steps, n - 1);
        lemma_replay_len(s, steps.take(n - 1));
        assert(steps.take(n).drop_last() == steps.take(n - 1));
        assert(only_looks(steps[n - 1]));
        assert(step_in_turn(s, steps, n - 1));
        assert(kept.update(kept.len() - 1, kept.last()) == kept);
    }
}

/// Comparisons that change nothing and answer as `same` does leave what `deduped` says.
pub proof fn lemma_replay_is_deduped<T>(
    s: Seq<T>,
    steps: Seq<Comparison<T>>,
    same: spec_fn(T, T) -> bool,
)
    requires
        in_turn(s, steps),
        steps.len() == step_count(s.len()),
        forall|i: int| #![trigger steps[i]]
            0 <= i < steps.len() ==> {
                &&& only_looks(steps[i])
                &&& steps[i].same == same(steps[i].item, steps[i].kept)
            },
    ensures
        replay(s, steps) == deduped(s, same),
    decreases s.len(),
{
    if s.len() == 1 {
        assert(s.take(1) == s);
    } else if s.len() > 1 {
        let front = s.drop_last();
        let earlier = steps.drop_last();
        assert forall|i: int| 0 <= i < earlier.len() implies #[trigger] step_in_turn(
            front,
            earlier,
            i,
        ) by {
            assert(step_in_turn(s, steps, i));
            assert(earlier.take(i) == steps.take(i));
            lemma_replay_of_prefix(s, front, earlier.take(i));
        }
        assert forall|i: int| #![trigger earlier[i]] 0 <= i < earlier.len() implies {
            &&& only_looks(earlier[i])
            &&& earlier[i].same == same(earlier[i].item, earlier[i].kept)
        } by {
            assert(earlier[i] == steps[i]);
        }
        lemma_replay_is_deduped(front, earlier, same);
        lemma_replay_of_prefix(s, front, earlier);
        lemma_replay_len(s, earlier);
        let last = steps.len() - 1;
        assert(steps.take(last) == earlier);
        assert(step_in_turn(s, steps, last));
        assert(only_looks(steps[last]));
        let kept = replay(s, earlier);
        assert(kept.update(kept.len() - 1, kept.last()) == kept);
    }
}

/// What is kept so far does not depend on the elements whose turn is still to come.
proof fn lemma_replay_of_prefix<T>(s: Seq<T>, front: Seq<T>, steps: Seq<Comparison<T>>)
    requires
        front.len() > 0,
        front == s.take(front.len() as int),
        front.len() <= s.len(),
    ensures
        replay(s, steps) == replay(front, steps),
    decreases steps.len(),
{
    if steps.len() == 0 {
        assert(s.take(1) == front.take(1));
    } else {
        lemma_replay_of_prefix(s, front, steps.drop_last());
    }
}

/// Where the elements from `write` to `read` are those dropped so far, one more comparison leaves
/// them so: it takes in the element at `read`, or puts that element in front of them.
proof fn lemma_tail_of_comparison<T>(
    before: Seq<T>,
    compared: Seq<T>,
    write: int,
    read: int,
    steps: Seq<Comparison<T>>,
)
    requires
        0 <= write <= read < before.len(),
        compared.len() == before.len(),
        steps.len() > 0,
        forall|j: int| #![trigger compared[j]]
            write <= j < read ==> compared[j] == before[j],
        compared[read] == steps.last().item_after,
        before.subrange(write, read).to_multiset() == discarded(steps.drop_last()).to_multiset(),
    ensures
        steps.last().same ==> compared.subrange(write, read + 1).to_multiset() == discarded(
            steps,
        ).to_multiset(),
        !steps.last().same ==> slices::swapped(compared, write, read).subrange(
            write + 1,
            read + 1,
        ).to_multiset() == discarded(steps).to_multiset(),
{
    assert(compared.subrange(write, read) == before.subrange(write, read));
    if steps.last().same {
        slices::lemma_range_grows(compared, write, read, discarded(steps.drop_last()));
    } else {
        slices::lemma_range_moves_up(compared, write, read);
    }
}

/// Comparisons that change nothing drop the elements that they do not mark.
proof fn lemma_discarded_is_unmarked<T>(s: Seq<T>, steps: Seq<Comparison<T>>, n: int)
    requires
        in_turn(s, steps),
        s.len() == steps.len() + 1,
        0 <= n <= steps.len(),
        forall|i: int| #![trigger steps[i]] 0 <= i < steps.len() ==> only_looks(steps[i]),
    ensures
        discarded(steps.take(n)) == retain::marked(
            s.take(n + 1),
            keep_marks(s, steps).take(n + 1).map_values(|k: bool| !k),
        ),
    decreases n,
{
    let keep = keep_marks(s, steps);
    let unmarked = keep.take(n + 1).map_values(|k: bool| !k);
    assert(s.take(n + 1).drop_last() == s.take(n));
    assert(unmarked.drop_last() == keep.take(n).map_values(|k: bool| !k));
    if n == 0 {
        assert(retain::marked(s.take(0), unmarked.drop_last()) == Seq::<T>::empty());
    } else {
        lemma_discarded_is_unmarked(s, steps, n - 1);
        assert(steps.take(n).drop_last() == steps.take(n - 1));
        assert(only_looks(steps[n - 1]));
        assert(step_in_turn(s, steps, n - 1));
    }
}

impl<T> ThinVec<T> {
    /// Drops each element that `same_bucket` finds to be the same as the last one kept before it.
    ///
    /// `same_bucket` is given the element in question and the last one kept, and may change them.
    /// The first element is always kept, and the order does not change. If the vector is sorted,
    /// this drops all duplicates.
    #[verifier::spinoff_prover]
    #[verifier::loop_isolation(false)]
    pub fn dedup_by<F>(&mut self, mut same_bucket: F) where F: FnMut(&mut T, &mut T) -> bool
        requires
            old(self).wf(),
            forall|steps: Seq<Comparison<T>>, a: &mut T, b: &mut T|
                #![trigger in_turn(old(self)@, steps), same_bucket.requires((a, b))]
                {
                    &&& steps.len() + 1 < old(self)@.len()
                    &&& in_turn(old(self)@, steps)
                    &&& forall|i: int| #![trigger steps[i]]
                        0 <= i < steps.len() ==> exists|x: &mut T, y: &mut T, r: bool|
                            {
                                &&& #[trigger] same_bucket.ensures((x, y), r) && r == steps[i].same
                                &&& *x == steps[i].item && *final(x) == steps[i].item_after
                                &&& *y == steps[i].kept && *final(y) == steps[i].kept_after
                            }
                    &&& *a == old(self)@[steps.len() as int + 1]
                    &&& *b == replay(old(self)@, steps).last()
                } ==> same_bucket.requires((a, b)),
        ensures
            final(self).wf(),
            final(self).capacity() == old(self).capacity(),
            final(self).is_allocated() == old(self).is_allocated(),
            final(self).forgotten() == old(self).forgotten(),
            old(self).dropped().is_prefix_of(final(self).dropped()),
            exists|steps: Seq<Comparison<T>>| #![trigger replay(old(self)@, steps)]
                {
                    &&& steps.len() == step_count(old(self)@.len())
                    &&& in_turn(old(self)@, steps)
                    &&& forall|i: int| #![trigger steps[i]]
                        0 <= i < steps.len() ==> exists|x: &mut T, y: &mut T, r: bool|
                            {
                                &&& #[trigger] same_bucket.ensures((x, y), r) && r == steps[i].same
                                &&& *x == steps[i].item && *final(x) == steps[i].item_after
                                &&& *y == steps[i].kept && *final(y) == steps[i].kept_after
                            }
                    &&& final(self)@ == replay(old(self)@, steps)
                    &&& final(self).dropped().skip(old(self).dropped().len() as int).to_multiset()
                        == discarded(steps).to_multiset()
                },
    {
        let ghost s = self@;
        let ghost f0 = same_bucket;
        let ghost mut steps = Seq::<Comparison<T>>::empty();
        let len = self.len();
        if len <= 1 {
            assert(s.len() == 1 ==> s.take(1) == s);
            assert(replay(s, steps) == s);
            assert(self.dropped().skip(self.dropped().len() as int) == discarded(steps));
            return;
        }
        let mut read: usize = 1;
        let mut write: usize = 1;
        assert(self@.subrange(1, 1) == discarded(steps));
        while read < len
            invariant
                self.wf(),
                self.capacity() == old(self).capacity(),
                self.is_allocated() == old(self).is_allocated(),
                self.dropped() == old(self).dropped(),
                self.forgotten() == old(self).forgotten(),
                s == old(self)@,
                same_bucket == f0,
                1 < len == s.len(),
                self@.len() == len,
                1 <= write <= read <= len,
                steps.len() == read - 1,
                in_turn(s, steps),
                self@.take(write as int) == replay(s, steps),
                self@.subrange(write as int, read as int).to_multiset() == discarded(
                    steps,
                ).to_multiset(),
                forall|j: int| #![trigger self@[j]] read <= j < len ==> self@[j] == s[j],
                forall|i: int| #![trigger steps[i]]
                    0 <= i < steps.len() ==> exists|x: &mut T, y: &mut T, r: bool|
                        {
                            &&& #[trigger] f0.ensures((x, y), r) && r == steps[i].same
                            &&& *x == steps[i].item && *final(x) == steps[i].item_after
                            &&& *y == steps[i].kept && *final(y) == steps[i].kept_after
                        },
            decreases len - read,
        {
            let ghost before = self@;
            assert(before.take(write as int).last() == before[write - 1]);
            let (front, back) = self.as_mut_slice().split_at_mut(read);
            let item = &mut back[0];
            let kept = &mut front[write - 1];
            let ghost (item_before, kept_before) = (*item, *kept);
            let same = same_bucket(item, kept);
            let ghost step = Comparison {
                item: item_before,
                item_after: *item,
                kept: kept_before,
                kept_after: *kept,
                same,
            };
            assert(exists|x: &mut T, y: &mut T, r: bool|
                {
                    &&& #[trigger] f0.ensures((x, y), r) && r == step.same
                    &&& *x == step.item && *final(x) == step.item_after
                    &&& *y == step.kept && *final(y) == step.kept_after
                });
            proof {
                lemma_replay_len(s, steps);
                lemma_in_turn_push(s, steps, step);
                steps = steps.push(step);
            }
            let ghost compared = self@;
            proof {
                lemma_tail_of_comparison(before, compared, write as int, read as int, steps);
            }
            if !same {
                if read != write {
                    swap_elements(self.as_mut_slice(), write, read);
                }
                assert(self@ == slices::swapped(compared, write as int, read as int));
                write = write + 1;
            }
            read = read + 1;
            assert(self@.take(write as int) == replay(s, steps));
        }
        let ghost tail = self@.skip(write as int);
        assert(tail == self@.subrange(write as int, read as int));
        self.truncate(write);
        assert(self.dropped().skip(old(self).dropped().len() as int) == tail);
    }

    /// Drops each element whose key equals the key of the last one kept before it.
    ///
    /// `key` is asked for the key of the element in question and then for that of the last one
    /// kept, and may change them. The first element is always kept, and the order does not change.
    /// If the vector is sorted, this drops all duplicates.
    #[verifier::spinoff_prover]
    #[verifier::loop_isolation(false)]
    pub fn dedup_by_key<F, K>(&mut self, mut key: F) where F: FnMut(&mut T) -> K, K: PartialEq<K>
        requires
            old(self).wf(),
            forall|steps: Seq<Comparison<T>>, item_keys: Seq<K>, kept_keys: Seq<K>, a: &mut T|
                #![trigger in_turn(old(self)@, steps), item_keys.len(), kept_keys.len(), key.requires((a,))]
                {
                    &&& steps.len() + 1 < old(self)@.len()
                    &&& item_keys.len() == steps.len()
                    &&& kept_keys.len() == steps.len()
                    &&& in_turn(old(self)@, steps)
                    &&& forall|i: int| #![trigger steps[i]]
                        0 <= i < steps.len() ==> {
                            &&& compared_equal(item_keys[i], kept_keys[i], steps[i].same)
                            &&& exists|x: &mut T|
                                {
                                    &&& #[trigger] key.ensures((x,), item_keys[i])
                                    &&& *x == steps[i].item && *final(x) == steps[i].item_after
                                }
                            &&& exists|y: &mut T|
                                {
                                    &&& #[trigger] key.ensures((y,), kept_keys[i])
                                    &&& *y == steps[i].kept && *final(y) == steps[i].kept_after
                                }
                        }
                    &&& *a == old(self)@[steps.len() as int + 1] || *a == replay(
                        old(self)@,
                        steps,
                    ).last()
                } ==> key.requires((a,)),
        ensures
            final(self).wf(),
            final(self).capacity() == old(self).capacity(),
            final(self).is_allocated() == old(self).is_allocated(),
            final(self).forgotten() == old(self).forgotten(),
            old(self).dropped().is_prefix_of(final(self).dropped()),
            exists|steps: Seq<Comparison<T>>, item_keys: Seq<K>, kept_keys: Seq<K>|
                #![trigger replay(old(self)@, steps), item_keys.len(), kept_keys.len()]
                {
                    &&& steps.len() == step_count(old(self)@.len())
                    &&& item_keys.len() == steps.len()
                    &&& kept_keys.len() == steps.len()
                    &&& in_turn(old(self)@, steps)
                    &&& forall|i: int| #![trigger steps[i]]
                        0 <= i < steps.len() ==> {
                            &&& compared_equal(item_keys[i], kept_keys[i], steps[i].same)
                            &&& exists|x: &mut T|
                                {
                                    &&& #[trigger] key.ensures((x,), item_keys[i])
                                    &&& *x == steps[i].item && *final(x) == steps[i].item_after
                                }
                            &&& exists|y: &mut T|
                                {
                                    &&& #[trigger] key.ensures((y,), kept_keys[i])
                                    &&& *y == steps[i].kept && *final(y) == steps[i].kept_after
                                }
                        }
                    &&& final(self)@ == replay(old(self)@, steps)
                    &&& final(self).dropped().skip(old(self).dropped().len() as int).to_multiset()
                        == discarded(steps).to_multiset()
                },
    {
        let ghost s = self@;
        let ghost f0 = key;
        let ghost mut steps = Seq::<Comparison<T>>::empty();
        let ghost mut item_keys = Seq::<K>::empty();
        let ghost mut kept_keys = Seq::<K>::empty();
        let len = self.len();
        if len <= 1 {
            assert(s.len() == 1 ==> s.take(1) == s);
            assert(replay(s, steps) == s && item_keys.len() == 0 && kept_keys.len() == 0);
            assert(self.dropped().skip(self.dropped().len() as int) == discarded(steps));
            return;
        }
        let mut read: usize = 1;
        let mut write: usize = 1;
        assert(self@.subrange(1, 1) == discarded(steps));
        while read < len
            invariant
                self.wf(),
                self.capacity() == old(self).capacity(),
                self.is_allocated() == old(self).is_allocated(),
                self.dropped() == old(self).dropped(),
                self.forgotten() == old(self).forgotten(),
                s == old(self)@,
                key == f0,
                1 < len == s.len(),
                self@.len() == len,
                1 <= write <= read <= len,
                steps.len() == read - 1,
                item_keys.len() == steps.len(),
                kept_keys.len() == steps.len(),
                in_turn(s, steps),
                self@.take(write as int) == replay(s, steps),
                self@.subrange(write as int, read as int).to_multiset() == discarded(
                    steps,
                ).to_multiset(),
                forall|j: int| #![trigger self@[j]] read <= j < len ==> self@[j] == s[j],
                forall|i: int| #![trigger steps[i]]
                    0 <= i < steps.len() ==> {
                        &&& compared_equal(item_keys[i], kept_keys[i], steps[i].same)
                        &&& exists|x: &mut T|
                            {
                                &&& #[trigger] f0.ensures((x,), item_keys[i])
                                &&& *x == steps[i].item && *final(x) == steps[i].item_after
                            }
                        &&& exists|y: &mut T|
                            {
                                &&& #[trigger] f0.ensures((y,), kept_keys[i])
                                &&& *y == steps[i].kept && *final(y) == steps[i].kept_after
                            }
                    },
            decreases len - read,
        {
            let ghost before = self@;
            assert(before.take(write as int).last() == before[write - 1]);
            let (front, back) = self.as_mut_slice().split_at_mut(read);
            let item = &mut back[0];
            let kept = &mut front[write - 1];
            let ghost (item_before, kept_before) = (*item, *kept);
            let item_key = key(item);
            let kept_key = key(kept);
            let same = item_key == kept_key;
            let ghost step = Comparison {
                item: item_before,
                item_after: *item,
                kept: kept_before,
                kept_after: *kept,
                same,
            };
            assert(exists|x: &mut T|
                {
                    &&& #[trigger] f0.ensures((x,), item_key)
                    &&& *x == step.item && *final(x) == step.item_after
                });
            assert(exists|y: &mut T|
                {
                    &&& #[trigger] f0.ensures((y,), kept_key)
                    &&& *y == step.kept && *final(y) == step.kept_after
                });
            assert(compared_equal(item_key, kept_key, step.same));
            let ghost (earlier, earlier_items, earlier_kept) = (steps, item_keys, kept_keys);
            proof {
                lemma_replay_len(s, steps);
                lemma_in_turn_push(s, steps, step);
                steps = steps.push(step);
                item_keys = item_keys.push(item_key);
                kept_keys = kept_keys.push(kept_key);
            }
            assert forall|i: int| #![trigger steps[i]] 0 <= i < steps.len() implies {
                &&& compared_equal(item_keys[i], kept_keys[i], steps[i].same)
                &&& exists|x: &mut T|
                    {
                        &&& #[trigger] f0.ensures((x,), item_keys[i])
                        &&& *x == steps[i].item && *final(x) == steps[i].item_after
                    }
                &&& exists|y: &mut T|
                    {
                        &&& #[trigger] f0.ensures((y,), kept_keys[i])
                        &&& *y == steps[i].kept && *final(y) == steps[i].kept_after
                    }
            } by {
                if i < earlier.len() {
                    assert(steps[i] == earlier[i]);
                    assert(item_keys[i] == earlier_items[i]);
                    assert(kept_keys[i] == earlier_kept[i]);
                } else {
                    assert(steps[i] == step);
                    assert(item_keys[i] == item_key);
                    assert(kept_keys[i] == kept_key);
                }
            }
            let ghost compared = self@;
            proof {
                lemma_tail_of_comparison(before, compared, write as int, read as int, steps);
            }
            if !same {
                if read != write {
                    swap_elements(self.as_mut_slice(), write, read);
                }
                assert(self@ == slices::swapped(compared, write as int, read as int));
                write = write + 1;
            }
            read = read + 1;
            assert(self@.take(write as int) == replay(s, steps));
        }
        let ghost tail = self@.skip(write as int);
        assert(tail == self@.subrange(write as int, read as int));
        self.truncate(write);
        assert(self.dropped().skip(old(self).dropped().len() as int) == tail);
        assert(item_keys.len() == steps.len() && kept_keys.len() == steps.len());
        assert forall|i: int| #![trigger steps[i]] 0 <= i < steps.len() implies {
            &&& compared_equal(item_keys[i], kept_keys[i], steps[i].same)
            &&& exists|x: &mut T|
                {
                    &&& #[trigger] key.ensures((x,), item_keys[i])
                    &&& *x == steps[i].item && *final(x) == steps[i].item_after
                }
            &&& exists|y: &mut T|
                {
                    &&& #[trigger] key.ensures((y,), kept_keys[i])
                    &&& *y == steps[i].kept && *final(y) == steps[i].kept_after
                }
        } by {
            assert(compared_equal(item_keys[i], kept_keys[i], steps[i].same));
        }
    }
}

impl<T: PartialEq> ThinVec<T> {
    /// Drops each element that equals the last one kept before it.
    ///
    /// The first element is always kept, and the order does not change. If the vector is sorted,
    /// this drops all duplicates.
    pub fn dedup(&mut self)
        requires
            old(self).wf(),
        ensures
            final(self).wf(),
            final(self).capacity() == old(self).capacity(),
            final(self).is_allocated() == old(self).is_allocated(),
            final(self).forgotten() == old(self).forgotten(),
            old(self).dropped().is_prefix_of(final(self).dropped()),
            exists|keep: Seq<bool>| #![trigger retain::marked(old(self)@, keep)]
                {
                    &&& keep.len() == old(self)@.len()
                    &&& keep.len() > 0 ==> keep[0]
                    &&& forall|i: int| #![trigger keep[i]]
                        0 < i < keep.len() ==> compared_equal(
                            old(self)@[i],
                            retain::marked(old(self)@.take(i), keep.take(i)).last(),
                            !keep[i],
                        )
                    &&& final(self)@ == retain::marked(old(self)@, keep)
                    &&& final(self).dropped().skip(old(self).dropped().len() as int).to_multiset()
                        == retain::marked(
                        old(self)@,
                        keep.map_values(|k: bool| !k),
                    ).to_multiset()
                },
            T::obeys_eq_spec() ==> final(self)@ == deduped(
                old(self)@,
                |a: T, b: T| a.eq_spec(&b),
            ),
    {
        let ghost s = self@;
        let equal = |a: &mut T, b: &mut T| -> (same: bool)
            ensures
                ({
                    &&& compared_equal(*old(a), *old(b), same)
                    &&& *final(a) == *old(a)
                    &&& *final(b) == *old(b)
                }),
        {
            let (a, b): (&T, &T) = (&*a, &*b);
            *a == *b
        };
        self.dedup_by(equal);
        proof {
            let steps = choose|steps: Seq<Comparison<T>>| #![trigger replay(s, steps)]
                {
                    &&& steps.len() == step_count(s.len())
                    &&& in_turn(s, steps)
                    &&& forall|i: int| #![trigger steps[i]]
                        0 <= i < steps.len() ==> {
                            &&& only_looks(steps[i])
                            &&& compared_equal(steps[i].item, steps[i].kept, steps[i].same)
                        }
                    &&& self@ == replay(s, steps)
                    &&& self.dropped().skip(old(self).dropped().len() as int).to_multiset()
                        == discarded(steps).to_multiset()
                };
            let keep = keep_marks(s, steps);
            assert(s.take(s.len() as int) == s && keep.take(s.len() as int) == keep);
            if s.len() > 0 {
                assert(steps.take(s.len() - 1) == steps);
                lemma_replay_is_marked(s, steps, s.len() - 1);
                lemma_discarded_is_unmarked(s, steps, s.len() - 1);
            }
            assert(discarded(steps) == retain::marked(s, keep.map_values(|k: bool| !k)));
            assert forall|i: int| #![trigger keep[i]] 0 < i < keep.len() implies compared_equal(
                s[i],
                retain::marked(s.take(i), keep.take(i)).last(),
                !keep[i],
            ) by {
                lemma_replay_is_marked(s, steps, i - 1);
                assert(step_in_turn(s, steps, i - 1));
                assert(compared_equal(steps[i - 1].item, steps[i - 1].kept, steps[i - 1].same));
                assert(!keep[i] == steps[i - 1].same);
            }
            assert(self@ == retain::marked(s, keep));
            if T::obeys_eq_spec() {
                lemma_replay_is_deduped(s, steps, |a: T, b: T| a.eq_spec(&b));
            }
        }
    }
}

/// Comparing `a` with `b` by `==` can give the answer `same`.
#[verifier::inline]
pub open spec fn compared_equal<T: PartialEq>(a: T, b: T, same: bool) -> bool {
    if same {
        call_ensures(T::eq, (&a, &b), true)
    } else {
        call_ensures(T::eq, (&a, &b), false)
    }
}

} // verus!

//! Comparing two vectors, element by element, and hashing one.

use crate::thin_vec::ThinVec;
use std::cmp::Ordering;
use std::hash::{Hash, Hasher};
use vstd::prelude::*;
use vstd::std_specs::cmp::{OrdSpec, PartialEqSpec, PartialOrdSpec};

verus! {

/// The place that an index stands for.
spec fn index_of(i: usize) -> int {
    i as int
}

/// The length of the shorter of two sequences.
pub open spec fn common_length<T>(a: Seq<T>, b: Seq<T>) -> nat {
    if a.len() <= b.len() {
        a.len()
    } else {
        b.len()
    }
}

/// How two lengths compare.
pub open spec fn length_order(a: nat, b: nat) -> Ordering {
    if a < b {
        Ordering::Less
    } else if a == b {
        Ordering::Equal
    } else {
        Ordering::Greater
    }
}

/// The two sequences have the same length, and each element of one equals that of the other.
pub open spec fn all_equal<T: PartialEq>(a: Seq<T>, b: Seq<T>) -> bool {
    a.len() == b.len() && forall|i: int| 0 <= i < a.len() ==> #[trigger] a[i].eq_spec(&b[i])
}

/// The order of two sequences is that of the first elements that do not compare as equal. Where
/// there are none, the shorter sequence is the smaller one.
pub open spec fn lexicographic<T: PartialOrd>(a: Seq<T>, b: Seq<T>) -> Option<Ordering>
    decreases a.len(),
{
    if a.len() == 0 || b.len() == 0 {
        Some(length_order(a.len(), b.len()))
    } else {
        match a[0].partial_cmp_spec(&b[0]) {
            Some(Ordering::Equal) => lexicographic(a.drop_first(), b.drop_first()),
            order => order,
        }
    }
}

/// The order of two sequences whose elements are totally ordered: that of the first elements that
/// differ, or else that of the lengths.
pub open spec fn total_lexicographic<T: Ord>(a: Seq<T>, b: Seq<T>) -> Ordering
    decreases a.len(),
{
    if a.len() == 0 || b.len() == 0 {
        length_order(a.len(), b.len())
    } else {
        match a[0].cmp_spec(&b[0]) {
            Ordering::Equal => total_lexicographic(a.drop_first(), b.drop_first()),
            order => order,
        }
    }
}

impl<T> PartialEq for ThinVec<T> where T: PartialEq {
    /// The lengths are the same, and no element differs from its counterpart.
    fn eq(&self, other: &ThinVec<T>) -> (equal: bool)
        ensures
            equal ==> {
                &&& self@.len() == other@.len()
                &&& forall|i: int| #![trigger self@[i]]
                    0 <= i < self@.len() ==> call_ensures(T::ne, (&self@[i], &other@[i]), false)
            },
            !equal && self@.len() == other@.len() ==> exists|i: int| #![trigger self@[i]]
                0 <= i < self@.len() && call_ensures(T::ne, (&self@[i], &other@[i]), true),
            T::obeys_eq_spec() ==> equal == (self@.len() == other@.len() && forall|i: int|
                0 <= i < self@.len() ==> #[trigger] self@[i].eq_spec(&other@[i])),
    {
        let a: &[T] = self.as_slice();
        let b: &[T] = other.as_slice();
        if a.len() == b.len() {
            let mut i: usize = 0;
            while i < a.len()
                invariant
                    a@ == self@,
                    b@ == other@,
                    a@.len() == b@.len(),
                    i <= a@.len(),
                    forall|j: int| #![trigger a@[j]]
                        0 <= j < i ==> call_ensures(T::ne, (&a@[j], &b@[j]), false),
                    T::obeys_eq_spec() ==> forall|j: int| 0 <= j < i ==> #[trigger] a@[j].eq_spec(
                        &b@[j],
                    ),
                decreases a@.len() - i,
            {
                if a[i] != b[i] {
                    return false;
                }
                i = i + 1;
            }
            true
        } else {
            false
        }
    }
}

impl<T> vstd::std_specs::cmp::PartialEqSpecImpl for ThinVec<T> where T: PartialEq {
    open spec fn obeys_eq_spec() -> bool {
        T::obeys_eq_spec()
    }

    open spec fn eq_spec(&self, other: &ThinVec<T>) -> bool {
        all_equal(self@, other@)
    }
}

impl<T> Eq for ThinVec<T> where T: Eq {

}

/// Elements that compare as equal at the front do not decide the order.
proof fn lemma_lexicographic_skip<T: PartialOrd>(a: Seq<T>, b: Seq<T>, n: int)
    requires
        0 <= n <= common_length(a, b),
        forall|i: int| 0 <= i < n ==> #[trigger] a[i].partial_cmp_spec(&b[i]) == Some(
            Ordering::Equal,
        ),
    ensures
        lexicographic(a, b) == lexicographic(a.skip(n), b.skip(n)),
    decreases n,
{
    if n == 0 {
        assert(a.skip(0) == a && b.skip(0) == b);
    } else {
        lemma_lexicographic_skip(a, b, n - 1);
        let (x, y) = (a.skip(n - 1), b.skip(n - 1));
        assert(x[0] == a[n - 1] && y[0] == b[n - 1]);
        assert(a[n - 1].partial_cmp_spec(&b[n - 1]) == Some(Ordering::Equal));
        assert(x.drop_first() == a.skip(n) && y.drop_first() == b.skip(n));
    }
}

/// Elements that compare as equal at the front do not decide the order.
proof fn lemma_total_lexicographic_skip<T: Ord>(a: Seq<T>, b: Seq<T>, n: int)
    requires
        0 <= n <= common_length(a, b),
        forall|i: int| 0 <= i < n ==> #[trigger] a[i].cmp_spec(&b[i]) == Ordering::Equal,
    ensures
        total_lexicographic(a, b) == total_lexicographic(a.skip(n), b.skip(n)),
    decreases n,
{
    if n == 0 {
        assert(a.skip(0) == a && b.skip(0) == b);
    } else {
        lemma_total_lexicographic_skip(a, b, n - 1);
        let (x, y) = (a.skip(n - 1), b.skip(n - 1));
        assert(x[0] == a[n - 1] && y[0] == b[n - 1]);
        assert(a[n - 1].cmp_spec(&b[n - 1]) == Ordering::Equal);
        assert(x.drop_first() == a.skip(n) && y.drop_first() == b.skip(n));
    }
}

/// How the lengths of two slices compare.
fn compare_lengths<T>(a: &[T], b: &[T]) -> (order: Ordering)
    ensures
        order == length_order(a@.len(), b@.len()),
{
    if a.len() < b.len() {
        Ordering::Less
    } else if a.len() == b.len() {
        Ordering::Equal
    } else {
        Ordering::Greater
    }
}

/// Comparing the elements of `a` and `b` one by one can show the first `n` to be equal, and what
/// comes after them to decide that the order is `order`.
pub open spec fn partially_decided_at<T: PartialOrd>(
    a: Seq<T>,
    b: Seq<T>,
    n: int,
    order: Option<Ordering>,
) -> bool {
    &&& 0 <= n <= common_length(a, b)
    &&& forall|i: int| #![trigger a[i]]
        0 <= i < n ==> call_ensures(T::partial_cmp, (&a[i], &b[i]), Some(Ordering::Equal))
    &&& if n < common_length(a, b) {
        &&& order != Some(Ordering::Equal)
        &&& call_ensures(T::partial_cmp, (&a[n], &b[n]), order)
    } else {
        order == Some(length_order(a.len(), b.len()))
    }
}

/// Comparing the elements of `a` and `b` one by one can show the first `n` to be equal, and what
/// comes after them to decide that the order is `order`.
pub open spec fn decided_at<T: Ord>(a: Seq<T>, b: Seq<T>, n: int, order: Ordering) -> bool {
    &&& 0 <= n <= common_length(a, b)
    &&& forall|i: int| #![trigger a[i]]
        0 <= i < n ==> call_ensures(T::cmp, (&a[i], &b[i]), Ordering::Equal)
    &&& if n < common_length(a, b) {
        &&& order != Ordering::Equal
        &&& call_ensures(T::cmp, (&a[n], &b[n]), order)
    } else {
        order == length_order(a.len(), b.len())
    }
}

impl<T> PartialOrd for ThinVec<T> where T: PartialOrd {
    /// The order of the first elements that do not compare as equal. Where there are none, whoever
    /// stops first is the smaller one.
    fn partial_cmp(&self, other: &ThinVec<T>) -> (order: Option<Ordering>)
        ensures
            exists|n: int| #[trigger] partially_decided_at(self@, other@, n, order),
            T::obeys_partial_cmp_spec() ==> order == lexicographic(self@, other@),
    {
        let a: &[T] = self.as_slice();
        let b: &[T] = other.as_slice();
        let mut i: usize = 0;
        while i < a.len() && i < b.len()
            invariant
                a@ == self@,
                b@ == other@,
                i <= common_length(a@, b@),
                forall|j: int| #![trigger a@[j]]
                    0 <= j < i ==> call_ensures(
                        T::partial_cmp,
                        (&a@[j], &b@[j]),
                        Some(Ordering::Equal),
                    ),
                T::obeys_partial_cmp_spec() ==> forall|j: int|
                    0 <= j < i ==> #[trigger] a@[j].partial_cmp_spec(&b@[j]) == Some(
                        Ordering::Equal,
                    ),
            decreases a@.len() - i,
        {
            let order = a[i].partial_cmp(&b[i]);
            match order {
                Some(Ordering::Equal) => {
                    i = i + 1;
                },
                order => {
                    proof {
                        if T::obeys_partial_cmp_spec() {
                            lemma_lexicographic_skip(a@, b@, index_of(i));
                        }
                        assert(partially_decided_at(self@, other@, index_of(i), order));
                    }
                    return order;
                },
            }
        }
        proof {
            if T::obeys_partial_cmp_spec() {
                lemma_lexicographic_skip(a@, b@, index_of(i));
            }
            assert(partially_decided_at(
                self@,
                other@,
                index_of(i),
                Some(length_order(a@.len(), b@.len())),
            ));
        }
        Some(compare_lengths(a, b))
    }
}

impl<T> vstd::std_specs::cmp::PartialOrdSpecImpl for ThinVec<T> where T: PartialOrd {
    open spec fn obeys_partial_cmp_spec() -> bool {
        T::obeys_partial_cmp_spec()
    }

    open spec fn partial_cmp_spec(&self, other: &ThinVec<T>) -> Option<Ordering> {
        lexicographic(self@, other@)
    }
}

impl<T> ThinVec<T> where T: Ord {
    /// The order of the first elements that do not compare as equal. Where there are none, whoever
    /// stops first is the smaller one.
    pub fn cmp(&self, other: &ThinVec<T>) -> (order: Ordering)
        ensures
            exists|n: int| #[trigger] decided_at(self@, other@, n, order),
            T::obeys_cmp_spec() ==> order == total_lexicographic(self@, other@),
    {
        let a: &[T] = self.as_slice();
        let b: &[T] = other.as_slice();
        let mut i: usize = 0;
        while i < a.len() && i < b.len()
            invariant
                a@ == self@,
                b@ == other@,
                i <= common_length(a@, b@),
                forall|j: int| #![trigger a@[j]]
                    0 <= j < i ==> call_ensures(T::cmp, (&a@[j], &b@[j]), Ordering::Equal),
                T::obeys_cmp_spec() ==> forall|j: int|
                    0 <= j < i ==> #[trigger] a@[j].cmp_spec(&b@[j]) == Ordering::Equal,
            decreases a@.len() - i,
        {
            let order = a[i].cmp(&b[i]);
            match order {
                Ordering::Equal => {
                    i = i + 1;
                },
                order => {
                    proof {
                        if T::obeys_cmp_spec() {
                            lemma_total_lexicographic_skip(a@, b@, index_of(i));
                        }
                        assert(decided_at(self@, other@, index_of(i), order));
                    }
                    return order;
                },
            }
        }
        proof {
            if T::obeys_cmp_spec() {
                lemma_total_lexicographic_skip(a@, b@, index_of(i));
            }
            assert(decided_at(self@, other@, index_of(i), length_order(a@.len(), b@.len())));
        }
        compare_lengths(a, b)
    }
}

/// Calls `<[T] as Hash>::hash`, which feeds the length and the elements of the slice to `state`. What
/// that makes of `state` depends on the implementations of the elements and of the hasher, and is
/// left open.
#[verifier::external_body]
pub(crate) fn hash_slice<T: Hash, H: Hasher>(slice: &[T], state: &mut H) {
    slice.hash(state)
}

/// Hashing `slice` can take the hasher `state` from what it is to what it becomes.
pub closed spec fn hashed_as_slice<T: Hash, H: Hasher>(slice: &[T], state: &mut H) -> bool {
    call_ensures(hash_slice::<T, H>, (slice, state), ())
}

/// Hashing a slice is one call of the slice's own `hash`, with that very slice and with nothing
/// before or after it.
pub(crate) proof fn law_hash_is_one_call<T: Hash, H: Hasher>(slice: &[T], state: &mut H)
    ensures
        hashed_as_slice(slice, state) <==> call_ensures(hash_slice::<T, H>, (slice, state), ()),
{
}

/// Slices of the same elements hash alike: whatever one of them can make of a hasher, the other can.
pub proof fn law_same_elements_hash_alike<T: Hash, H: Hasher>(x: &[T], y: &[T], state: &mut H)
    requires
        x@ == y@,
    ensures
        hashed_as_slice(x, state) <==> hashed_as_slice(y, state),
{
    broadcast use vstd::slice::group_slice_axioms;

    assert(x =~= y);
}

/// A vector hashes as any slice of its elements does: a hasher can come out of hashing the vector
/// just if it can come out of one call of the slice's own `hash`. So vectors of the same elements hash
/// alike, whatever their capacities.
pub(crate) proof fn law_vector_hashes_as_slice<T: Hash, H: Hasher>(
    vec: ThinVec<T>,
    same: &[T],
    before: H,
    after: H,
)
    requires
        same@ == vec@,
    ensures
        (exists|slice: &[T], hasher: &mut H|
            {
                &&& #[trigger] hashed_as_slice(slice, hasher)
                &&& slice@ == vec@
                &&& *hasher == before
                &&& *final(hasher) == after
            }) <==> (exists|hasher: &mut H|
            {
                &&& #[trigger] call_ensures(hash_slice::<T, H>, (same, hasher), ())
                &&& *hasher == before
                &&& *final(hasher) == after
            }),
{
    broadcast use vstd::slice::group_slice_axioms;

    assert forall|slice: &[T], hasher: &mut H|
        #[trigger] hashed_as_slice(slice, hasher) && slice@ == vec@ implies call_ensures(
        hash_slice::<T, H>,
        (same, hasher),
        (),
    ) by {
        assert(slice =~= same);
    }
    assert forall|hasher: &mut H| #[trigger] call_ensures(
        hash_slice::<T, H>,
        (same, hasher),
        (),
    ) implies hashed_as_slice(same, hasher) by {}
}

impl<T> Hash for ThinVec<T> where T: Hash {
    /// Hashes as a slice of the same elements does.
    fn hash<H>(&self, state: &mut H) where H: Hasher
        ensures
            exists|slice: &[T], hasher: &mut H|
                {
                    &&& #[trigger] hashed_as_slice(slice, hasher)
                    &&& slice@ == self@
                    &&& *hasher == *old(state)
                    &&& *final(hasher) == *final(state)
                },
    {
        let slice: &[T] = self.as_slice();
        hash_slice(slice, state);
        proof {
            let hasher = choose|hasher: &mut H|
                {
                    &&& #[trigger] call_ensures(hash_slice::<T, H>, (slice, hasher), ())
                    &&& *hasher == *old(state)
                    &&& *final(hasher) == *state
                };
            assert(hashed_as_slice(slice, hasher));
        }
    }
}

} // verus!

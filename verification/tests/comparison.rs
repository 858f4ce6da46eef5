use std::cmp::Ordering;
use std::collections::hash_map::DefaultHasher;
use std::hash::{Hash, Hasher};
use thin_vec::ThinVec;

fn filled<T: Clone>(elements: &[T]) -> ThinVec<T> {
    let mut vec = ThinVec::new();
    vec.extend_from_slice(elements);
    vec
}

#[test]
fn eq_looks_at_elements_and_length() {
    assert!(filled(&[1, 2]) == filled(&[1, 2]));
    assert!(filled(&[1, 2]) != filled(&[1, 3]));
    assert!(filled(&[1, 2]) != filled(&[1]));
    assert!(filled::<i32>(&[]) == ThinVec::with_capacity(9));
}

#[test]
fn order_is_that_of_the_first_difference() {
    assert_eq!(filled(&[1, 2, 9]).cmp(&filled(&[1, 3])), Ordering::Less);
    assert_eq!(filled(&[2]).cmp(&filled(&[1, 3])), Ordering::Greater);
    assert_eq!(filled(&[1, 2]).cmp(&filled(&[1, 2])), Ordering::Equal);
    assert_eq!(filled(&[1, 2]).partial_cmp(&filled(&[1, 3])), Some(Ordering::Less));
    assert!(filled(&[1, 4]) > filled(&[1, 3]));
}

#[test]
fn whoever_stops_first_is_smaller() {
    assert_eq!(filled(&[1, 2]).cmp(&filled(&[1, 2, 0])), Ordering::Less);
    assert_eq!(filled(&[1, 2]).partial_cmp(&filled(&[1])), Some(Ordering::Greater));
    assert_eq!(filled::<i32>(&[]).partial_cmp(&filled(&[1])), Some(Ordering::Less));
}

#[test]
fn what_does_not_compare_has_no_order() {
    let nan = f64::NAN;
    assert_eq!(filled(&[1.0, nan]).partial_cmp(&filled(&[1.0, 2.0])), None);
    assert_eq!(filled(&[0.0, nan]).partial_cmp(&filled(&[1.0, 2.0])), Some(Ordering::Less));
    assert!(filled(&[nan]) != filled(&[nan]));
}

#[test]
fn hash_is_that_of_the_slice() {
    for elements in [&[1u32, 2, 3][..], &[7], &[]] {
        let mut ours = DefaultHasher::new();
        filled(elements).hash(&mut ours);
        let mut theirs = DefaultHasher::new();
        elements.hash(&mut theirs);
        assert_eq!(ours.finish(), theirs.finish());
    }
}

#[test]
fn different_vectors_hash_differently() {
    let mut first = DefaultHasher::new();
    filled(&[1u32, 2, 3]).hash(&mut first);
    let mut second = DefaultHasher::new();
    filled(&[1u32, 2]).hash(&mut second);
    assert_ne!(first.finish(), second.finish());
}

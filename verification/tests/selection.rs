use thin_vec::ThinVec;

fn filled<T: Clone>(elements: &[T]) -> ThinVec<T> {
    let mut vec = ThinVec::new();
    vec.extend_from_slice(elements);
    vec
}

#[test]
fn retain_example() {
    let mut vec = ThinVec::new();
    vec.extend_from_slice(&[1, 2, 3, 4]);
    vec.retain(|&x| x % 2 == 0);
    assert_eq!(&*vec, &[2, 4]);
}

#[test]
fn retain_all_or_none() {
    let mut vec = filled(&[1, 2, 3]);
    vec.retain(|_| true);
    assert_eq!(vec[..], [1, 2, 3]);
    vec.retain(|_| false);
    assert!(vec.is_empty());
    assert_eq!(vec.capacity(), 4);
    vec.retain(|_| false);
    assert!(vec.is_empty());
}

#[test]
fn retain_asks_once_for_each_in_order() {
    let mut asked = Vec::new();
    let mut vec = filled(&[5, 6, 7, 8]);
    vec.retain(|&x| {
        asked.push(x);
        x != 6
    });
    assert_eq!(asked, [5, 6, 7, 8]);
    assert_eq!(vec[..], [5, 7, 8]);
    vec.retain(|&x| x != 6);
    assert_eq!(vec[..], [5, 7, 8]);
}

#[test]
fn dedup_by_key_example() {
    let mut vec = filled(&[10, 20, 21, 30, 20]);
    vec.dedup_by_key(|i| *i / 10);
    assert_eq!(vec[..], [10, 20, 30, 20]);
}

#[test]
fn dedup_by_example() {
    let mut vec = filled(&["foo", "bar", "Bar", "baz", "bar"]);
    vec.dedup_by(|a, b| a.eq_ignore_ascii_case(b));
    assert_eq!(vec[..], ["foo", "bar", "baz", "bar"]);
}

#[test]
fn dedup_example() {
    let mut vec = filled(&[1, 2, 2, 3, 2]);
    vec.dedup();
    assert_eq!(vec[..], [1, 2, 3, 2]);
}

#[test]
fn dedup_of_sorted_drops_all_duplicates() {
    let mut vec = filled(&[1, 1, 1, 2, 3, 3, 4, 4]);
    vec.dedup();
    assert_eq!(vec[..], [1, 2, 3, 4]);
    assert_eq!(vec.capacity(), 8);
    vec.dedup();
    assert_eq!(vec[..], [1, 2, 3, 4]);
}

#[test]
fn dedup_of_short_vectors() {
    let mut vec = ThinVec::<i32>::new();
    vec.dedup();
    assert!(vec.is_empty());
    vec.push(1);
    vec.dedup();
    assert_eq!(vec[..], [1]);
    vec.push(1);
    vec.dedup();
    assert_eq!(vec[..], [1]);
}

#[test]
fn dedup_by_compares_with_the_last_one_kept() {
    let mut asked = Vec::new();
    let mut vec = filled(&[1, 2, 3, 5, 6]);
    vec.dedup_by(|a, b| {
        asked.push((*a, *b));
        *a - *b == 1
    });
    assert_eq!(asked, [(2, 1), (3, 1), (5, 3), (6, 5)]);
    assert_eq!(vec[..], [1, 3, 5]);
}

#[test]
fn dedup_by_may_change_what_it_compares() {
    let mut vec = filled(&[1, 2, 10, 4]);
    vec.dedup_by(|a, b| {
        if *a < 9 {
            *b += *a;
            true
        } else {
            *a += 1;
            false
        }
    });
    assert_eq!(vec[..], [3, 15]);
}

#[test]
fn dedup_by_key_asks_for_both_keys() {
    let mut asked = Vec::new();
    let mut vec = filled(&[10, 11, 20]);
    vec.dedup_by_key(|i| {
        asked.push(*i);
        *i / 10
    });
    assert_eq!(asked, [11, 10, 20, 10]);
    assert_eq!(vec[..], [10, 20]);
}

use std::cell::Cell;
use thin_vec::{IntoIter, ThinVec};

struct Counted<'a>(&'a Cell<usize>);

impl<'a> Drop for Counted<'a> {
    fn drop(&mut self) {
        self.0.set(self.0.get() + 1);
    }
}

fn filled(elements: &[i32]) -> ThinVec<i32> {
    let mut vec = ThinVec::new();
    vec.extend_from_slice(elements);
    vec
}

fn counted(cell: &Cell<usize>, n: usize) -> ThinVec<Counted<'_>> {
    let mut vec = ThinVec::new();
    for _ in 0..n {
        vec.push(Counted(cell));
    }
    vec
}

#[test]
fn into_iter_takes_the_elements_in_order() {
    let mut out = Vec::new();
    for x in filled(&[1, 2, 3]) {
        out.push(x);
    }
    assert_eq!(out, [1, 2, 3]);
    let back: Vec<i32> = filled(&[1, 2, 3]).into_iter().rev().collect();
    assert_eq!(back, [3, 2, 1]);
}

#[test]
fn both_ends_meet() {
    let mut iter: IntoIter<i32> = filled(&[1, 2, 3, 4]).into_iter();
    assert_eq!(iter.size_hint(), (4, Some(4)));
    assert_eq!(iter.next(), Some(1));
    assert_eq!(iter.next_back(), Some(4));
    assert_eq!(iter.size_hint(), (2, Some(2)));
    assert_eq!(iter.next_back(), Some(3));
    assert_eq!(iter.next(), Some(2));
    assert_eq!(iter.next(), None);
    assert_eq!(iter.next_back(), None);
    assert_eq!(iter.size_hint(), (0, Some(0)));
}

#[test]
fn references_go_through_in_order() {
    let mut vec = filled(&[1, 2, 3]);
    let mut sum = 0;
    for x in &vec {
        sum = sum * 10 + *x;
    }
    assert_eq!(sum, 123);
    for x in &mut vec {
        *x *= 2;
    }
    assert_eq!(vec[..], [2, 4, 6]);
}

#[test]
fn extend_takes_what_comes_out() {
    let mut vec = ThinVec::new();
    vec.extend(filled(&[4, 5, 6]).into_iter());
    assert_eq!(vec[..], [4, 5, 6]);
}

#[test]
fn each_element_is_dropped_once() {
    let cell = Cell::new(0);
    let mut vec = counted(&cell, 10);
    assert_eq!(cell.get(), 0);
    vec.truncate(8);
    assert_eq!(cell.get(), 2);
    drop(vec.pop());
    drop(vec.remove(0));
    drop(vec.swap_remove(0));
    assert_eq!(cell.get(), 5);
    drop(vec.split_off(4));
    assert_eq!(cell.get(), 6);
    vec.retain(|_| false);
    assert_eq!(cell.get(), 10);
    drop(vec);
    assert_eq!(cell.get(), 10);
}

#[test]
fn drop_and_clear_drop_all() {
    let cell = Cell::new(0);
    let mut vec = counted(&cell, 5);
    vec.clear();
    assert_eq!(cell.get(), 5);
    drop(counted(&cell, 3));
    assert_eq!(cell.get(), 8);
}

#[test]
fn an_iterator_drops_what_is_left() {
    let cell = Cell::new(0);
    let mut iter = counted(&cell, 5).into_iter();
    drop(iter.next());
    drop(iter.next_back());
    assert_eq!(cell.get(), 2);
    drop(iter);
    assert_eq!(cell.get(), 5);
}

#[test]
fn set_len_forgets_without_dropping() {
    let cell = Cell::new(0);
    let mut vec = counted(&cell, 5);
    vec.set_len(2);
    assert_eq!(vec.len(), 2);
    assert_eq!(vec.capacity(), 8);
    assert_eq!(cell.get(), 0);
    drop(vec);
    assert_eq!(cell.get(), 2);
}

use thin_vec::ThinVec;

fn filled(elements: &[i32]) -> ThinVec<i32> {
    let mut vec = ThinVec::new();
    vec.extend_from_slice(elements);
    vec
}

#[test]
fn is_one_pointer_wide() {
    assert_eq!(std::mem::size_of::<ThinVec<u64>>(), std::mem::size_of::<usize>());
}

#[test]
fn new_is_empty_without_room() {
    let vec = ThinVec::<i32>::new();
    assert_eq!(vec.len(), 0);
    assert!(vec.is_empty());
    assert_eq!(vec.capacity(), 0);
    let vec: ThinVec<i32> = Default::default();
    assert_eq!((vec.len(), vec.capacity()), (0, 0));
}

#[test]
fn with_capacity_has_room() {
    let vec = ThinVec::<i32>::with_capacity(17);
    assert_eq!(vec.len(), 0);
    assert_eq!(vec.capacity(), 17);
    assert_eq!(ThinVec::<i32>::with_capacity(0).capacity(), 0);
}

#[test]
fn push_two_pop_three() {
    let mut vec = ThinVec::new();
    vec.push(0);
    vec.push(1);
    assert_eq!(vec.pop(), Some(1));
    assert_eq!(vec.pop(), Some(0));
    assert_eq!(vec.pop(), None);
    assert_eq!(vec.capacity(), 4);
}

#[test]
fn capacity_grows_by_doubling() {
    let mut vec = ThinVec::new();
    let mut seen = Vec::new();
    for i in 0..17 {
        vec.push(i);
        seen.push(vec.capacity());
    }
    assert_eq!(seen, [4, 4, 4, 4, 8, 8, 8, 8, 16, 16, 16, 16, 16, 16, 16, 16, 32]);
    let mut vec = ThinVec::with_capacity(3);
    for i in 0..4 {
        vec.push(i);
    }
    assert_eq!(vec.capacity(), 6);
}

#[test]
fn elements_without_size_need_one_buffer() {
    let mut vec = ThinVec::new();
    for _ in 0..100 {
        vec.push(());
    }
    assert_eq!(vec.len(), 100);
    assert_eq!(vec.capacity(), usize::MAX);
    assert_eq!(vec.pop(), Some(()));
    assert_eq!(vec.len(), 99);
}

#[test]
fn macro_example() {
    let v = filled(&[1, 2, 3]);
    assert_eq!(v.len(), 3);
    assert_eq!(v[0], 1);
    assert_eq!(v[1], 2);
    assert_eq!(v[2], 3);
}

#[test]
fn insert_moves_the_tail_up() {
    let mut vec = filled(&[1, 2, 3]);
    vec.insert(1, 9);
    assert_eq!(vec[..], [1, 9, 2, 3]);
    vec.insert(4, 8);
    assert_eq!(vec[..], [1, 9, 2, 3, 8]);
    vec.insert(0, 7);
    assert_eq!(vec[..], [7, 1, 9, 2, 3, 8]);
    assert_eq!(vec.capacity(), 8);
}

#[test]
fn remove_moves_the_tail_down() {
    let mut vec = filled(&[1, 2, 3, 4]);
    assert_eq!(vec.remove(1), 2);
    assert_eq!(vec[..], [1, 3, 4]);
    assert_eq!(vec.remove(2), 4);
    assert_eq!(vec.remove(0), 1);
    assert_eq!(vec[..], [3]);
}

#[test]
fn insert_and_remove_undo_each_other() {
    let mut vec = filled(&[1, 2, 3]);
    vec.insert(2, 5);
    assert_eq!(vec.remove(2), 5);
    assert_eq!(vec[..], [1, 2, 3]);
    let val = vec.remove(1);
    vec.insert(1, val);
    assert_eq!(vec[..], [1, 2, 3]);
}

#[test]
fn swap_remove_fills_the_gap_with_the_last() {
    let mut vec = filled(&[1, 2, 3, 4]);
    assert_eq!(vec.swap_remove(1), 2);
    assert_eq!(vec[..], [1, 4, 3]);
    assert_eq!(vec.swap_remove(2), 3);
    assert_eq!(vec[..], [1, 4]);
    assert_eq!(vec.swap_remove(0), 1);
    assert_eq!(vec[..], [4]);
}

#[test]
fn truncate_and_clear_keep_the_capacity() {
    let mut vec = filled(&[1, 2, 3, 4, 5]);
    vec.truncate(5);
    assert_eq!(vec.len(), 5);
    vec.truncate(2);
    assert_eq!(vec[..], [1, 2]);
    assert_eq!(vec.capacity(), 8);
    vec.clear();
    assert!(vec.is_empty());
    assert_eq!(vec.capacity(), 8);
    let mut never = ThinVec::<i32>::new();
    never.clear();
    never.truncate(0);
    assert!(never.is_empty());
}

#[test]
fn truncate_to_more_changes_nothing() {
    let mut vec = filled(&[1, 2, 3]);
    vec.truncate(8);
    assert_eq!(vec[..], [1, 2, 3]);
    assert_eq!(vec.len(), 3);
    assert_eq!(vec.capacity(), 4);
    let mut never = ThinVec::<i32>::new();
    never.truncate(5);
    assert!(never.is_empty());
    assert_eq!(never.capacity(), 0);
}

#[test]
fn split_off_and_append_undo_each_other() {
    let mut vec = filled(&[1, 2, 3, 4, 5]);
    let mut tail = vec.split_off(2);
    assert_eq!(vec[..], [1, 2]);
    assert_eq!(vec.capacity(), 8);
    assert_eq!(tail[..], [3, 4, 5]);
    assert_eq!(tail.capacity(), 3);
    vec.append(&mut tail);
    assert_eq!(vec[..], [1, 2, 3, 4, 5]);
    assert!(tail.is_empty());
    assert_eq!(tail.capacity(), 3);
    assert!(vec.split_off(5).is_empty());
    assert!(ThinVec::<i32>::new().split_off(0).is_empty());
}

#[test]
fn append_grows_as_pushes_do() {
    let mut vec = filled(&[1]);
    let mut other = filled(&[2, 3, 4, 5]);
    vec.append(&mut other);
    assert_eq!(vec[..], [1, 2, 3, 4, 5]);
    assert_eq!(vec.capacity(), 8);
    assert_eq!(other.capacity(), 4);
}

#[test]
fn reserve_makes_room() {
    let mut vec = filled(&[1, 2]);
    vec.reserve(2);
    assert_eq!(vec.capacity(), 4);
    vec.reserve(9);
    assert_eq!(vec.capacity(), 16);
    assert_eq!(vec[..], [1, 2]);
    vec.reserve_exact(14);
    assert_eq!(vec.capacity(), 16);
    vec.reserve_exact(15);
    assert_eq!(vec.capacity(), 17);
    assert_eq!(vec[..], [1, 2]);
}

#[test]
fn reserve_grows_as_pushes_do() {
    let mut units = ThinVec::new();
    units.push(());
    units.reserve(usize::MAX - 1);
    assert_eq!((units.len(), units.capacity()), (1, usize::MAX));
    for additional in 0..20 {
        let mut reserved = filled(&[1, 2, 3]);
        reserved.reserve(additional);
        let mut pushed = filled(&[1, 2, 3]);
        for _ in 0..additional {
            pushed.push(0);
        }
        assert_eq!(reserved.capacity(), pushed.capacity());
        let capacity = reserved.capacity();
        reserved.reserve(additional);
        assert_eq!(reserved.capacity(), capacity);
    }
}

#[test]
fn shrink_to_fit_gives_room_back() {
    let mut vec = filled(&[1, 2, 3]);
    vec.shrink_to_fit();
    assert_eq!(vec.capacity(), 3);
    assert_eq!(vec[..], [1, 2, 3]);
    vec.clear();
    vec.shrink_to_fit();
    assert_eq!(vec.capacity(), 0);
}

#[test]
fn resize_drops_or_adds() {
    let mut vec = filled(&[1, 2, 3]);
    vec.resize(5, 9);
    assert_eq!(vec[..], [1, 2, 3, 9, 9]);
    assert_eq!(vec.capacity(), 8);
    vec.resize(1, 7);
    assert_eq!(vec[..], [1]);
    vec.resize(1, 7);
    assert_eq!(vec[..], [1]);
}

#[test]
fn extend_adds_in_order() {
    let mut vec = filled(&[1]);
    vec.extend(vec![2, 3].into_iter());
    vec.extend([4, 5].iter().cloned());
    assert_eq!(vec[..], [1, 2, 3, 4, 5]);
    assert_eq!(vec.capacity(), 8);
    vec.extend_from_slice(&[]);
    assert_eq!(vec.len(), 5);
}

#[test]
fn slices_see_and_change_the_elements() {
    let mut vec = filled(&[3, 1, 2]);
    assert_eq!(vec.as_slice(), &[3, 1, 2]);
    vec.as_mut_slice()[0] = 4;
    vec[1] = 5;
    assert_eq!(vec.as_slice(), &[4, 5, 2]);
    vec.sort();
    let borrowed: &[i32] = std::borrow::Borrow::borrow(&vec);
    assert_eq!(borrowed, &[2, 4, 5]);
    let borrowed: &mut [i32] = std::borrow::BorrowMut::borrow_mut(&mut vec);
    borrowed[0] = 0;
    let seen: &[i32] = vec.as_ref();
    assert_eq!(seen, &[0, 4, 5]);
    let mut empty = ThinVec::<i32>::new();
    assert!(empty.as_mut_slice().is_empty());
    assert!(empty.as_slice().is_empty());
}

#[test]
fn clone_has_room_for_just_the_elements() {
    let vec = filled(&[1, 2, 3, 4, 5]);
    let copy = vec.clone();
    assert_eq!(copy[..], [1, 2, 3, 4, 5]);
    assert_eq!(copy.capacity(), 5);
    assert!(copy == vec);
    assert_eq!(ThinVec::<i32>::new().clone().capacity(), 0);
}

#[test]
fn alloc_size_counts_header_and_elements() {
    let word = std::mem::size_of::<usize>();
    assert_eq!(thin_vec::alloc_size::<u8>(5), 2 * word + 5);
    assert_eq!(thin_vec::alloc_size::<usize>(3), 5 * word);
    assert_eq!(thin_vec::alloc_size::<()>(usize::MAX), 2 * word);
    assert_eq!(thin_vec::Header::data_offset::<u8>(), 2 * word);
}

#[test]
fn data_address_is_aligned() {
    let word = std::mem::size_of::<usize>();
    let align = std::mem::align_of::<usize>();
    let wide = std::mem::align_of::<u128>();
    let mut seen = Vec::new();
    for i in 0..8 {
        let header = 4096 + i * align;
        assert_eq!(thin_vec::Header::data_address::<u8>(header), header + 2 * word);
        assert_eq!(thin_vec::Header::data_address::<usize>(header), header + 2 * word);
        let addr = thin_vec::Header::data_address::<u128>(header);
        assert_eq!(addr % wide, 0);
        assert!(header + 2 * word <= addr);
        assert!(addr <= header + thin_vec::Header::data_offset::<u128>());
        seen.push(addr - header);
    }
    assert_eq!(seen.iter().min(), Some(&(2 * word)));
    assert_eq!(seen.iter().max(), Some(&thin_vec::Header::data_offset::<u128>()));
}

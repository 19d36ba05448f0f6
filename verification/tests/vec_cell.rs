use vec_cell::VecCell;

fn cell_from(items: &[i32]) -> VecCell<i32> {
    let mut c: VecCell<i32> = VecCell::new();
    c.extend_from_slice(items);
    c
}

#[test]
fn it_works() {
    let mut x: VecCell<u8> = VecCell::new();
    x.extend_from_slice(&[1, 2, 3]);
    x.push(12);
    x.push(34);

    assert_eq!(x.into_inner().as_slice(), &[1, 2, 3, 12, 34]);
}

#[test]
fn push_order_is_preserved() {
    let values = [11, 22, 33, 44, 55];
    let mut c: VecCell<i32> = VecCell::new();
    for v in values.iter() {
        c.push(*v);
    }
    for (i, v) in values.iter().enumerate() {
        assert_eq!(c.get(i), Some(*v));
    }
}

#[test]
fn length_never_exceeds_capacity() {
    let mut c: VecCell<i32> = VecCell::with_capacity(2);
    assert!(c.capacity() >= c.len());
    for v in 0..100 {
        c.push(v);
        assert!(c.capacity() >= c.len());
    }
    c.truncate(3);
    assert!(c.capacity() >= c.len());
    c.shrink_to(0);
    assert!(c.capacity() >= c.len());
    c.reserve(50);
    assert!(c.capacity() >= c.len());
    c.reserve_exact(7);
    assert!(c.capacity() >= c.len());
}

#[test]
fn with_capacity_reserves_headroom() {
    let c: VecCell<i32> = VecCell::with_capacity(10);
    assert_eq!(c.len(), 0);
    assert!(c.capacity() >= 10);
}

#[test]
fn reservations_leave_headroom() {
    let mut c = cell_from(&[1, 2, 3]);
    c.reserve(40);
    assert!(c.capacity() >= 3 + 40);
    c.reserve_exact(50);
    assert!(c.capacity() >= 3 + 50);
    assert!(c.try_reserve(60).is_ok());
    assert!(c.capacity() >= 3 + 60);
    c.shrink_to(4);
    assert!(c.capacity() >= c.len());
    assert_eq!(c.into_inner(), vec![1, 2, 3]);
}

#[test]
fn push_pop_round_trip() {
    let mut c = cell_from(&[5, 6]);
    c.push(7);
    assert_eq!(c.pop(), Some(7));
    assert_eq!(c.len(), 2);
    assert_eq!(c.into_inner(), vec![5, 6]);
}

#[test]
fn pop_on_empty_is_none() {
    let mut c: VecCell<i32> = VecCell::new();
    assert_eq!(c.pop(), None);
}

#[test]
fn insert_remove_inverse() {
    let mut c = cell_from(&[1, 2, 4, 5]);
    c.insert(2, 3);
    assert_eq!(c.get(2), Some(3));
    assert_eq!(c.remove(2), 3);
    assert_eq!(c.into_inner(), vec![1, 2, 4, 5]);
}

#[test]
fn insert_at_length_appends() {
    let mut c = cell_from(&[1, 2]);
    c.insert(2, 3);
    assert_eq!(c.into_inner(), vec![1, 2, 3]);
}

#[test]
fn drain_collect_returns_range_and_closes_gap() {
    let mut c = cell_from(&[10, 11, 12, 13, 14]);
    let taken = c.drain_collect(1..4);
    assert_eq!(taken, vec![11, 12, 13]);
    assert_eq!(c.into_inner(), vec![10, 14]);
}

#[test]
fn drain_discards_range() {
    let mut c = cell_from(&[10, 11, 12, 13, 14]);
    c.drain(0..2);
    assert_eq!(c.into_inner(), vec![12, 13, 14]);
}

#[derive(Clone, Copy, Debug)]
struct Keyed {
    key: u8,
    tag: u8,
}

impl PartialEq for Keyed {
    fn eq(&self, other: &Self) -> bool {
        self.key == other.key
    }
}

impl Eq for Keyed {}

impl PartialOrd for Keyed {
    fn partial_cmp(&self, other: &Self) -> Option<std::cmp::Ordering> {
        Some(self.cmp(other))
    }
}

impl Ord for Keyed {
    fn cmp(&self, other: &Self) -> std::cmp::Ordering {
        self.key.cmp(&other.key)
    }
}

#[test]
fn sort_is_stable_for_equal_keys() {
    let mut c: VecCell<Keyed> = VecCell::new();
    for (key, tag) in [(2, 0), (1, 1), (2, 2), (1, 3), (2, 4)] {
        c.push(Keyed { key, tag });
    }
    c.sort();
    let sorted = c.into_inner();
    let pairs: Vec<(u8, u8)> = sorted.iter().map(|k| (k.key, k.tag)).collect();
    assert_eq!(pairs, vec![(1, 1), (1, 3), (2, 0), (2, 2), (2, 4)]);
}

#[test]
fn sort_unstable_orders_ascending() {
    let mut c = cell_from(&[9, -3, 7, 0, 7, -3]);
    c.sort_unstable();
    assert_eq!(c.into_inner(), vec![-3, -3, 0, 7, 7, 9]);
}

#[test]
fn binary_search_finds_present_value() {
    let c = cell_from(&[1, 3, 5, 7, 9]);
    assert_eq!(c.binary_search(&7), Ok(3));
}

#[test]
fn binary_search_insertion_point_keeps_sorted() {
    let mut c = cell_from(&[1, 3, 5, 9]);
    let at = match c.binary_search(&7) {
        Ok(_) => panic!("7 is absent"),
        Err(at) => at,
    };
    assert_eq!(at, 3);
    c.insert(at, 7);
    let sorted = c.into_inner();
    assert_eq!(sorted, vec![1, 3, 5, 7, 9]);
}

#[test]
fn clone_is_independent() {
    let mut a = cell_from(&[1, 2, 3]);
    let mut b = a.clone();
    a.push(4);
    assert_eq!(b.len(), 3);
    assert_eq!(b.get(2), Some(3));
    b.remove(0);
    assert_eq!(a.len(), 4);
    assert_eq!(a.get(0), Some(1));
}

#[test]
fn conversion_round_trip() {
    let v = vec![4, 5, 6];
    let c: VecCell<i32> = VecCell::from(v.clone());
    assert_eq!(c.into_inner(), v);
    let d: VecCell<i32> = VecCell::from(vec![7, 8]);
    let back: Vec<i32> = Vec::from(d);
    assert_eq!(back, vec![7, 8]);
}

#[test]
fn out_of_bounds_get_is_absent() {
    let c = cell_from(&[1, 2]);
    assert_eq!(c.get(2), None);
    assert_eq!(c.get(usize::MAX), None);
    let empty: VecCell<i32> = VecCell::new();
    assert_eq!(empty.first(), None);
    assert_eq!(empty.last(), None);
}

#[test]
fn swap_remove_moves_last_into_slot() {
    let mut c: VecCell<i32> = VecCell::new();
    c.push(1);
    c.push(2);
    c.push(3);
    assert_eq!(c.swap_remove(0), 1);
    assert_eq!(c.into_inner(), vec![3, 2]);
}

#[test]
fn dedup_keeps_first_of_each_run() {
    let mut c = cell_from(&[1, 2, 2, 3, 3, 3]);
    c.dedup();
    assert_eq!(c.into_inner(), vec![1, 2, 3]);
}

#[test]
fn sort_then_binary_search_scenario() {
    let mut c = cell_from(&[5, 3, 1, 4, 2]);
    c.sort();
    assert_eq!(c.binary_search(&4), Ok(3));
    assert_eq!(c.into_inner(), vec![1, 2, 3, 4, 5]);
}

#[test]
fn iter_copies_each_element_once() {
    let c = cell_from(&[10, 20, 30]);
    let mut it = c.iter();
    assert_eq!(it.position(), 0);
    assert_eq!(it.next(), Some(10));
    assert_eq!(it.next(), Some(20));
    assert_eq!(it.position(), 2);
    assert_eq!(it.next(), Some(30));
    assert_eq!(it.next(), None);
    assert_eq!(it.next(), None);
    assert_eq!(it.position(), 5);
}

#[test]
fn accessors_read_live_buffer() {
    let c = cell_from(&[7, 8, 9]);
    assert_eq!(c.first(), Some(7));
    assert_eq!(c.last(), Some(9));
    assert_eq!(c.as_ref().as_slice(), &[7, 8, 9]);
    assert_eq!(c.get_ref(1), Some(&8));
    assert_eq!(c.get_ref(3), None);
    assert!(!c.is_empty());
    let empty: VecCell<i32> = VecCell::default();
    assert!(empty.is_empty());
}

#[test]
fn as_mut_edits_the_buffer_in_place() {
    let mut c = cell_from(&[1, 2]);
    c.as_mut().push(3);
    c.as_mut()[0] = 9;
    assert_eq!(c.into_inner(), vec![9, 2, 3]);
}

#[test]
fn truncate_and_resize() {
    let mut c = cell_from(&[1, 2, 3, 4]);
    c.truncate(6);
    assert_eq!(c.len(), 4);
    c.truncate(2);
    assert_eq!(c.as_ref().as_slice(), &[1, 2]);
    c.resize(5, 0);
    assert_eq!(c.as_ref().as_slice(), &[1, 2, 0, 0, 0]);
    c.resize(1, 9);
    assert_eq!(c.into_inner(), vec![1]);
}

#[test]
fn fill_overwrites_every_slot() {
    let mut c = cell_from(&[1, 2, 3]);
    c.fill(8);
    assert_eq!(c.into_inner(), vec![8, 8, 8]);
}

#[test]
fn reverse_and_rotate() {
    let mut c = cell_from(&[1, 2, 3, 4, 5]);
    c.reverse();
    assert_eq!(c.as_ref().as_slice(), &[5, 4, 3, 2, 1]);
    c.rotate_left(2);
    assert_eq!(c.as_ref().as_slice(), &[3, 2, 1, 5, 4]);
    c.rotate_right(2);
    assert_eq!(c.into_inner(), vec![5, 4, 3, 2, 1]);
}

#[test]
fn swap_exchanges_two_slots() {
    let mut c = cell_from(&[1, 2, 3, 4]);
    c.swap(0, 3);
    c.swap(1, 1);
    assert_eq!(c.into_inner(), vec![4, 2, 3, 1]);
}

#[test]
fn split_off_keeps_head_returns_tail() {
    let mut c = cell_from(&[1, 2, 3, 4, 5]);
    let tail = c.split_off(2);
    assert_eq!(tail, vec![3, 4, 5]);
    assert_eq!(c.into_inner(), vec![1, 2]);
}

#[test]
fn extend_appends_in_order() {
    let mut c = cell_from(&[1]);
    c.extend(vec![2, 3]);
    c.extend_from_slice(&[4, 5]);
    assert_eq!(c.into_inner(), vec![1, 2, 3, 4, 5]);
}

#[test]
fn contains_and_starts_with() {
    let c = cell_from(&[1, 2, 3]);
    assert!(c.contains(&2));
    assert!(!c.contains(&9));
    assert!(c.starts_with(&[1, 2]));
    assert!(c.starts_with(&[]));
    assert!(!c.starts_with(&[2]));
    assert!(!c.starts_with(&[1, 2, 3, 4]));
}

#[test]
fn try_reserve_reports_success() {
    let mut c = cell_from(&[1, 2]);
    assert!(c.try_reserve(16).is_ok());
    assert!(c.capacity() >= c.len());
    assert_eq!(c.into_inner(), vec![1, 2]);
}

use bounded_deque::deque::BoundedDeque;
use bounded_deque::errors::DequeError;

#[test]
fn new_takes_source_whole_even_past_bound() {
    let d = BoundedDeque::new(1, vec![1, 2, 3, 4], Some(2));
    assert_eq!(d.to_vec(), vec![1, 2, 3, 4]);
    assert_eq!(d.maxlen(), Some(2));
}

#[test]
fn new_empty_unbounded() {
    let d = BoundedDeque::new(1, Vec::new(), None);
    assert_eq!(d.len(), 0);
    assert_eq!(d.maxlen(), None);
}

#[test]
fn append_and_appendleft_unbounded() {
    let mut d = BoundedDeque::new(1, Vec::new(), None);
    d.append(2);
    d.append(3);
    d.appendleft(1);
    assert_eq!(d.to_vec(), vec![1, 2, 3]);
}

#[test]
fn append_evicts_head_when_full() {
    let mut d = BoundedDeque::new(1, Vec::new(), Some(3));
    d.append(1);
    d.append(2);
    d.append(3);
    d.append(4);
    assert_eq!(d.to_vec(), vec![2, 3, 4]);
}

#[test]
fn appendleft_evicts_tail_when_full() {
    let mut d = BoundedDeque::new(1, vec![2, 3, 4], Some(3));
    d.appendleft(0);
    assert_eq!(d.to_vec(), vec![0, 2, 3]);
}

#[test]
fn eviction_matches_the_boundless_terminal_element() {
    // What the bounded push evicts is exactly the element a bound-less
    // container would show at the opposite end just before the push.
    let mut bounded = BoundedDeque::new(1, vec![1, 2, 3], Some(3));
    let unbounded = BoundedDeque::new(2, vec![1, 2, 3], None);
    let evicted_head = unbounded.to_vec()[0];
    bounded.append(4);
    assert_eq!(evicted_head, 1);
    assert!(!bounded.to_vec().contains(&evicted_head));
    assert_eq!(bounded.len(), 3);

    let mut bounded = BoundedDeque::new(3, vec![1, 2, 3], Some(3));
    let evicted_tail = *unbounded.to_vec().last().unwrap();
    bounded.appendleft(0);
    assert_eq!(evicted_tail, 3);
    assert!(!bounded.to_vec().contains(&evicted_tail));
    assert_eq!(bounded.len(), 3);
}

#[test]
fn insert_at_the_smallest_index_clamps_to_front() {
    let mut d = BoundedDeque::new(1, vec![1, 2, 3], None);
    assert_eq!(d.insert(i32::MIN, 9), Ok(()));
    assert_eq!(d.to_vec(), vec![9, 1, 2, 3]);
}

#[test]
fn bound_zero_still_accepts_a_push() {
    // The bound acts only when the length sits exactly at it; with bound 0
    // the eviction is a no-op on an empty container and the push lands.
    let mut d = BoundedDeque::new(1, Vec::new(), Some(0));
    d.append(7);
    assert_eq!(d.to_vec(), vec![7]);
}

#[test]
fn length_never_passes_a_positive_bound() {
    let mut d = BoundedDeque::new(1, Vec::new(), Some(2));
    for x in 0..10 {
        d.append(x);
        assert!(d.len() <= 2);
        d.appendleft(x);
        assert!(d.len() <= 2);
    }
    // Each head push evicts the tail it just slid in, so the old head stays.
    assert_eq!(d.to_vec(), vec![9, 0]);
}

#[test]
fn pop_returns_tail() {
    let mut d = BoundedDeque::new(1, vec![1, 2, 3], None);
    assert_eq!(d.pop(), Ok(3));
    assert_eq!(d.to_vec(), vec![1, 2]);
}

#[test]
fn popleft_returns_head() {
    let mut d = BoundedDeque::new(1, vec![1, 2, 3], None);
    assert_eq!(d.popleft(), Ok(1));
    assert_eq!(d.to_vec(), vec![2, 3]);
}

#[test]
fn pop_on_empty_fails() {
    let mut d = BoundedDeque::new(1, Vec::new(), None);
    assert_eq!(d.pop(), Err(DequeError::EmptyContainer));
    assert_eq!(d.popleft(), Err(DequeError::EmptyContainer));
}

#[test]
fn clear_keeps_bound() {
    let mut d = BoundedDeque::new(1, vec![1, 2], Some(5));
    d.clear();
    assert_eq!(d.len(), 0);
    assert_eq!(d.maxlen(), Some(5));
}

#[test]
fn copy_is_equal_and_independent() {
    let a = BoundedDeque::new(1, vec![1, 2, 3], Some(5));
    let mut b = a.copy(2);
    assert_eq!(b.to_vec(), a.to_vec());
    assert_eq!(b.maxlen(), a.maxlen());
    b.append(4);
    let _ = b.pop();
    let _ = b.popleft();
    assert_eq!(a.to_vec(), vec![1, 2, 3]);
}

#[test]
fn extend_pushes_each_at_tail() {
    let mut d = BoundedDeque::new(1, vec![1], Some(3));
    d.extend(&vec![2, 3, 4]);
    assert_eq!(d.to_vec(), vec![2, 3, 4]);
}

#[test]
fn extendleft_reverses_its_input_at_head() {
    let mut d = BoundedDeque::new(1, vec![9], None);
    d.extendleft(&vec![1, 2, 3]);
    assert_eq!(d.to_vec(), vec![3, 2, 1, 9]);
}

#[test]
fn insert_clamps_negative_overflow_to_front() {
    let mut d = BoundedDeque::new(1, vec![1, 2, 3], None);
    assert_eq!(d.insert(-100, 9), Ok(()));
    assert_eq!(d.to_vec(), vec![9, 1, 2, 3]);
}

#[test]
fn insert_clamps_positive_overflow_before_last() {
    let mut d = BoundedDeque::new(1, vec![1, 2, 3], None);
    assert_eq!(d.insert(100, 9), Ok(()));
    assert_eq!(d.to_vec(), vec![1, 2, 9, 3]);
}

#[test]
fn insert_counts_negative_from_tail() {
    let mut d = BoundedDeque::new(1, vec![1, 2, 3], None);
    assert_eq!(d.insert(-1, 9), Ok(()));
    assert_eq!(d.to_vec(), vec![1, 2, 9, 3]);
}

#[test]
fn insert_at_capacity_fails() {
    let mut d = BoundedDeque::new(1, vec![1, 2], Some(2));
    assert_eq!(d.insert(0, 9), Err(DequeError::ContainerFull));
    assert_eq!(d.to_vec(), vec![1, 2]);
}

#[test]
fn reverse_in_place() {
    let mut d = BoundedDeque::new(1, vec![1, 2, 3, 4], None);
    d.reverse();
    assert_eq!(d.to_vec(), vec![4, 3, 2, 1]);
}

#[test]
fn reverse_twice_restores_order() {
    let mut d = BoundedDeque::new(1, vec![1, 2, 3, 4, 5], None);
    d.reverse();
    d.reverse();
    assert_eq!(d.to_vec(), vec![1, 2, 3, 4, 5]);
}

#[test]
fn rotate_positive_moves_tail_to_front() {
    let mut d = BoundedDeque::new(1, vec![1, 2, 3, 4, 5], None);
    d.rotate(2);
    assert_eq!(d.to_vec(), vec![4, 5, 1, 2, 3]);
}

#[test]
fn rotate_negative_moves_head_to_back() {
    let mut d = BoundedDeque::new(1, vec![1, 2, 3, 4, 5], None);
    d.rotate(-2);
    assert_eq!(d.to_vec(), vec![3, 4, 5, 1, 2]);
}

#[test]
fn rotate_wraps_past_length() {
    let mut d = BoundedDeque::new(1, vec![1, 2, 3], None);
    d.rotate(7);
    assert_eq!(d.to_vec(), vec![3, 1, 2]);
}

#[test]
fn rotate_then_inverse_restores_order() {
    for n in [-7isize, -3, -1, 0, 1, 2, 5, 11] {
        let mut d = BoundedDeque::new(1, vec![1, 2, 3, 4], None);
        d.rotate(n);
        d.rotate(-n);
        assert_eq!(d.to_vec(), vec![1, 2, 3, 4]);
    }
}

#[test]
fn rotate_on_empty_and_singleton() {
    let mut d = BoundedDeque::new(1, Vec::new(), None);
    d.rotate(3);
    d.rotate(-3);
    assert_eq!(d.len(), 0);
    let mut s = BoundedDeque::new(1, vec![42], None);
    s.rotate(5);
    s.rotate(-5);
    assert_eq!(s.to_vec(), vec![42]);
}

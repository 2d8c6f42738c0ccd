use std::sync::atomic::{AtomicUsize, Ordering};
use std::sync::Arc;

use rizzler::ringbuffer::RingBuffer;

/// Counts its own drops in a shared counter.
struct Dropper(Arc<AtomicUsize>);

impl Drop for Dropper {
    fn drop(&mut self) {
        self.0.fetch_add(1, Ordering::SeqCst);
    }
}

fn items(rb: &RingBuffer<i32, 3>) -> Vec<i32> {
    rb.iter().into_iter().copied().collect()
}

fn items4(rb: &RingBuffer<i32, 4>) -> Vec<i32> {
    rb.iter().into_iter().copied().collect()
}

#[test]
fn test_push_and_len() {
    let mut rb = RingBuffer::<i32, 3>::new();
    rb.push_back(10);
    assert_eq!(rb.len(), 1);
    assert!(!rb.is_empty());
    rb.push_back(20);
    assert_eq!(rb.len(), 2);
    rb.push_back(30);
    assert_eq!(rb.len(), 3);
    assert!(rb.is_full());
    assert_eq!(rb.capacity(), 3);
}

#[test]
fn test_push_back_wrap_evicts_front() {
    let mut rb = RingBuffer::<i32, 3>::new();
    assert_eq!(rb.push_back(1), None);
    assert_eq!(rb.push_back(2), None);
    assert_eq!(rb.push_back(3), None);
    assert_eq!(rb.push_back(4), Some(1));
    assert_eq!(rb.len(), 3);
    assert_eq!(items(&rb), vec![2, 3, 4]);
    assert_eq!(rb.peek_front(), Some(&2));
    assert_eq!(rb.peek_back(), Some(&4));
}

#[test]
fn test_push_front_wrap_evicts_back() {
    let mut rb = RingBuffer::<i32, 3>::new();
    assert_eq!(rb.push_front(1), None);
    assert_eq!(rb.push_front(2), None);
    assert_eq!(rb.push_front(3), None);
    assert_eq!(rb.push_front(4), Some(1));
    assert_eq!(rb.len(), 3);
    assert_eq!(items(&rb), vec![4, 3, 2]);
    assert_eq!(rb.peek_front(), Some(&4));
    assert_eq!(rb.peek_back(), Some(&2));
}

#[test]
fn test_mixed_ends() {
    let mut rb = RingBuffer::<i32, 4>::new();
    rb.push_back(1);
    rb.push_front(0);
    rb.push_back(2);
    rb.push_front(-1);
    assert_eq!(items4(&rb), vec![-1, 0, 1, 2]);
    assert_eq!(rb.pop_front(), Some(-1));
    assert_eq!(rb.pop_back(), Some(2));
    assert_eq!(items4(&rb), vec![0, 1]);
}

#[test]
fn test_pop_back() {
    let mut rb = RingBuffer::<i32, 3>::new();
    rb.push_back(10);
    rb.push_back(20);
    assert_eq!(rb.pop_back(), Some(20));
    assert_eq!(rb.len(), 1);
    assert_eq!(rb.pop_back(), Some(10));
    assert!(rb.is_empty());
    assert_eq!(rb.pop_back(), None);
}

#[test]
fn test_pop_front() {
    let mut rb = RingBuffer::<i32, 3>::new();
    rb.push_back(10);
    rb.push_back(20);
    assert_eq!(rb.pop_front(), Some(10));
    assert_eq!(rb.len(), 1);
    assert_eq!(rb.pop_front(), Some(20));
    assert!(rb.is_empty());
    assert_eq!(rb.pop_front(), None);
}

#[test]
fn test_peek_both_ends() {
    let mut rb = RingBuffer::<i32, 3>::new();
    assert_eq!(rb.peek_back(), None);
    assert_eq!(rb.peek_front(), None);
    rb.push_back(100);
    assert_eq!(rb.peek_back(), Some(&100));
    assert_eq!(rb.peek_front(), Some(&100));
    assert_eq!(rb.len(), 1);
}

#[test]
fn test_wrap_then_pop_returns_logical_order() {
    let mut rb = RingBuffer::<i32, 3>::new();
    for v in [1, 2, 3, 4, 5] {
        rb.push_back(v);
    }
    assert_eq!(rb.pop_back(), Some(5));
    assert_eq!(rb.pop_front(), Some(3));
    assert_eq!(rb.pop_back(), Some(4));
    assert_eq!(rb.pop_back(), None);
}

#[test]
fn test_capacity_one() {
    let mut rb = RingBuffer::<i32, 1>::new();
    assert_eq!(rb.push_back(1), None);
    assert_eq!(rb.push_back(2), Some(1));
    assert_eq!(rb.len(), 1);
    assert_eq!(rb.peek_front(), Some(&2));
    assert_eq!(rb.push_front(3), Some(2));
    assert_eq!(rb.pop_front(), Some(3));
    assert!(rb.is_empty());
}

#[test]
fn test_into_iter_front_to_back() {
    let mut rb = RingBuffer::<i32, 3>::new();
    rb.push_back(1);
    rb.push_back(2);
    rb.push_back(3);
    let mut it = rb.into_iter();
    let mut out = Vec::new();
    while let Some(x) = it.next() {
        out.push(x);
    }
    assert_eq!(out, vec![1, 2, 3]);
}

#[test]
fn test_into_iter_double_ended() {
    let mut rb = RingBuffer::<i32, 4>::new();
    rb.push_back(1);
    rb.push_back(2);
    rb.push_back(3);
    let mut it = rb.into_iter();
    assert_eq!(it.size_hint(), (3, Some(3)));
    assert_eq!(it.next(), Some(1));
    assert_eq!(it.next_back(), Some(3));
    assert_eq!(it.next(), Some(2));
    assert_eq!(it.next(), None);
    assert_eq!(it.next_back(), None);
}

#[test]
fn push_back_then_pop_back_restores_contents() {
    let mut rb = RingBuffer::<i32, 4>::new();
    rb.push_back(7);
    rb.push_back(8);
    assert_eq!(rb.push_back(9), None);
    assert_eq!(rb.pop_back(), Some(9));
    assert_eq!(items4(&rb), vec![7, 8]);
    assert_eq!(rb.push_front(6), None);
    assert_eq!(rb.pop_front(), Some(6));
    assert_eq!(items4(&rb), vec![7, 8]);
}

#[test]
fn full_buffer_keeps_newest_elements() {
    let mut rb = RingBuffer::<i32, 3>::new();
    for v in 1..=10 {
        rb.push_back(v);
        assert!(rb.len() <= rb.capacity());
    }
    assert_eq!(items(&rb), vec![8, 9, 10]);
}

#[test]
fn test_clone() {
    let mut rb = RingBuffer::<i32, 4>::new();
    for v in [10, 20, 30] {
        rb.push_back(v);
    }
    let rb2 = rb.clone();
    assert_eq!(items4(&rb), items4(&rb2));
}

#[test]
fn test_drops_are_called() {
    let count = Arc::new(AtomicUsize::new(0));
    let d = || Dropper(count.clone());
    {
        let mut rb = RingBuffer::<Dropper, 3>::new();
        rb.push_back(d());
        rb.push_back(d());
        rb.push_back(d());
        let evicted = rb.push_back(d());
        assert!(evicted.is_some());
        drop(evicted);
        assert_eq!(count.load(Ordering::SeqCst), 1);
    }
    assert_eq!(count.load(Ordering::SeqCst), 4);
}

#[test]
fn as_slices_split_where_the_storage_wraps() {
    let mut rb = RingBuffer::<i32, 3>::new();
    let (a, b) = rb.as_slices();
    assert!(a.is_empty() && b.is_empty());
    rb.push_back(1);
    rb.push_back(2);
    let (a, b) = rb.as_slices();
    assert_eq!(a.into_iter().copied().collect::<Vec<_>>(), vec![1, 2]);
    assert!(b.is_empty());
    rb.push_back(3);
    rb.push_back(4); // evicts 1; the live range now wraps
    let (a, b) = rb.as_slices();
    assert_eq!(a.into_iter().copied().collect::<Vec<_>>(), vec![2, 3]);
    assert_eq!(b.into_iter().copied().collect::<Vec<_>>(), vec![4]);
    assert_eq!(rb.len(), 3);
}

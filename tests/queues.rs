use naia_socket::bridge::{settle_send, BridgeQueue};
use naia_socket::packet::Packet;
use naia_socket::time_queue::TimeQueue;

#[test]
fn time_queue_releases_in_time_order() {
    let mut q: TimeQueue<u32> = TimeQueue::new();
    q.schedule(1, 30);
    q.schedule(2, 10);
    q.schedule(3, 20);
    assert_eq!(q.len(), 3);
    assert_eq!(q.pop_ready(100), Some(2));
    assert_eq!(q.pop_ready(100), Some(3));
    assert_eq!(q.pop_ready(100), Some(1));
    assert_eq!(q.pop_ready(100), None);
    assert!(q.is_empty());
}

#[test]
fn time_queue_equal_times_keep_insertion_order() {
    let mut q: TimeQueue<u32> = TimeQueue::new();
    q.schedule(1, 5);
    q.schedule(2, 7);
    q.schedule(3, 5);
    q.schedule(4, 5);
    q.schedule(5, 7);
    let mut out = Vec::new();
    while let Some(x) = q.pop_ready(7) {
        out.push(x);
    }
    assert_eq!(out, vec![1, 3, 4, 2, 5]);
}

#[test]
fn time_queue_holds_items_until_due() {
    let mut q: TimeQueue<u32> = TimeQueue::new();
    q.schedule(9, 50);
    assert!(!q.has_ready(49));
    assert_eq!(q.pop_ready(49), None);
    assert_eq!(q.len(), 1);
    assert!(q.has_ready(50));
    assert_eq!(q.pop_ready(50), Some(9));
}

#[test]
fn time_queue_empty_has_nothing_ready() {
    let mut q: TimeQueue<u8> = TimeQueue::new();
    assert!(!q.has_ready(u64::MAX));
    assert_eq!(q.pop_ready(u64::MAX), None);
}

#[test]
fn bridge_queue_is_fifo() {
    let mut q: BridgeQueue<u32> = BridgeQueue::new();
    assert!(q.is_empty());
    assert_eq!(q.pop_front(), None);
    q.push(1);
    q.push(2);
    q.push(3);
    assert_eq!(q.len(), 3);
    assert_eq!(q.pop_front(), Some(1));
    q.push(4);
    assert_eq!(q.take_all(), vec![2, 3, 4]);
    assert!(q.is_empty());
}

#[test]
fn failed_sends_surface_once_each_in_order() {
    let mut dropped: BridgeQueue<Packet> = BridgeQueue::new();
    let sent: Vec<Packet> = (0u8..5).map(|i| Packet::new(7, vec![i])).collect();
    for p in sent.iter() {
        assert_eq!(settle_send(&mut dropped, p.clone(), false), Ok(()));
    }
    let retries = dropped.take_all();
    assert_eq!(retries, sent);
    assert!(dropped.is_empty());
    assert!(dropped.take_all().is_empty());
}

#[test]
fn accepted_sends_are_not_retried() {
    let mut dropped: BridgeQueue<Packet> = BridgeQueue::new();
    assert_eq!(settle_send(&mut dropped, Packet::new_raw(vec![1]), true), Ok(()));
    assert_eq!(settle_send(&mut dropped, Packet::new_raw(vec![2]), false), Ok(()));
    assert_eq!(settle_send(&mut dropped, Packet::new_raw(vec![3]), true), Ok(()));
    assert_eq!(dropped.take_all(), vec![Packet::new_raw(vec![2])]);
}

#[test]
fn packet_accessors() {
    let p = Packet::new(42, vec![1, 2, 3]);
    assert_eq!(p.address(), 42);
    assert_eq!(p.payload(), &[1u8, 2, 3][..]);
    let r = Packet::new_raw(vec![9]);
    assert_eq!(r.address(), 0);
    assert_eq!(r.payload(), &[9u8][..]);
}

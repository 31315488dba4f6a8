use wirecage::queue::{PacketQueue, QUEUE_CAPACITY};

#[test]
fn fifo_order_is_kept() {
    let mut q = PacketQueue::new();
    assert!(q.push(vec![1]));
    assert!(q.push(vec![2]));
    assert!(q.push(vec![3]));
    assert_eq!(q.pop(), Some(vec![1]));
    assert!(q.push(vec![4]));
    assert_eq!(q.pop(), Some(vec![2]));
    assert_eq!(q.pop(), Some(vec![3]));
    assert_eq!(q.pop(), Some(vec![4]));
    assert_eq!(q.pop(), None);
}

#[test]
fn capacity_is_one_hundred() {
    assert_eq!(QUEUE_CAPACITY, 100);
    let mut q = PacketQueue::new();
    for i in 0..QUEUE_CAPACITY {
        assert!(q.push(vec![i as u8]));
    }
    assert_eq!(q.len(), QUEUE_CAPACITY);
    assert!(!q.push(vec![0xff]));
    assert_eq!(q.len(), QUEUE_CAPACITY);
    assert_eq!(q.pop(), Some(vec![0]));
    assert!(q.push(vec![0xff]));
}

#[test]
fn pop_on_empty_is_none_and_harmless() {
    let mut q = PacketQueue::new();
    assert_eq!(q.pop(), None);
    assert!(q.push(vec![9, 9]));
    assert_eq!(q.pop(), Some(vec![9, 9]));
    assert_eq!(q.pop(), None);
}

use blaze::queue::{AdmissionQueue, QueueError};

#[test]
fn fifo_order() {
    let mut q: AdmissionQueue<u64> = AdmissionQueue::new();
    assert_eq!(q.dequeue(), None);
    q.enqueue(1).unwrap();
    q.enqueue(2).unwrap();
    q.enqueue(3).unwrap();
    assert_eq!(q.dequeue(), Some(1));
    assert_eq!(q.dequeue(), Some(2));
    assert_eq!(q.dequeue(), Some(3));
    assert_eq!(q.dequeue(), None);
}

#[test]
fn each_connection_delivered_exactly_once() {
    let mut q: AdmissionQueue<u64> = AdmissionQueue::new();
    let n: u64 = 5000;
    for c in 0..n {
        q.enqueue(c).unwrap();
    }
    let mut seen = vec![0u32; n as usize];
    let mut delivered: u64 = 0;
    while let Some(c) = q.dequeue() {
        seen[c as usize] += 1;
        delivered += 1;
    }
    assert_eq!(delivered, n);
    assert!(seen.iter().all(|&count| count == 1));
    assert_eq!(q.len(), 0);
}

#[test]
fn drain_hands_everything_out_in_order() {
    let mut q: AdmissionQueue<u64> = AdmissionQueue::new();
    for c in 10..20 {
        q.enqueue(c).unwrap();
    }
    let all = q.drain();
    assert_eq!(all, (10..20).collect::<Vec<u64>>());
    assert_eq!(q.len(), 0);
    assert_eq!(q.dequeue(), None);
}

#[test]
fn bounded_queue_refuses_overflow() {
    let mut q: AdmissionQueue<u64> = AdmissionQueue::with_bound(2);
    assert_eq!(q.enqueue(1), Ok(()));
    assert_eq!(q.enqueue(2), Ok(()));
    assert_eq!(q.enqueue(3), Err(QueueError::Full));
    assert_eq!(q.len(), 2);
    assert_eq!(q.dequeue(), Some(1));
    assert_eq!(q.enqueue(4), Ok(()));
    assert_eq!(q.dequeue(), Some(2));
    assert_eq!(q.dequeue(), Some(4));
    assert_eq!(q.dequeue(), None);
}

#[test]
fn zero_bound_always_full() {
    let mut q: AdmissionQueue<u64> = AdmissionQueue::with_bound(0);
    assert_eq!(q.enqueue(7), Err(QueueError::Full));
    assert_eq!(q.dequeue(), None);
}

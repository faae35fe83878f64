use std::sync::mpsc::channel;
use tremor_runtime::async_sink::{AsyncSink, SinkDequeueError, SinkEnqueueError};
use tremor_runtime::errors::ErrorKind;

#[test]
fn dequeue_empty() {
    let mut q: AsyncSink<u8> = AsyncSink::new(2);
    assert!(matches!(q.dequeue(), Err(SinkDequeueError::Empty)));
    assert_eq!(q.len(), 0);
    assert_eq!(q.capacity(), 2);
    assert!(q.has_capacity());
}

#[test]
fn full_sink_refuses_until_one_completion_is_drained() {
    let mut q: AsyncSink<u8> = AsyncSink::new(2);
    let (tx1, rx1) = channel();
    let (_tx2, rx2) = channel();
    let (_tx3, rx3) = channel();
    assert_eq!(q.enqueue(rx1), Ok(()));
    assert_eq!(q.enqueue(rx2), Ok(()));
    assert!(!q.has_capacity());
    // Beyond the limit, with nothing drained: refused.
    assert_eq!(q.enqueue(rx3), Err(SinkEnqueueError::AtCapacity));
    assert_eq!(q.len(), 2);
    assert!(matches!(q.dequeue(), Err(SinkDequeueError::NotReady)));
    let (_tx4, rx4) = channel();
    assert_eq!(q.enqueue(rx4), Err(SinkEnqueueError::AtCapacity));
    // One completion is drained: exactly one more is admitted.
    tx1.send(Ok(7)).expect("receiver is gone");
    match q.dequeue() {
        Ok(Ok(7)) => {}
        _ => panic!("the finished unit was not handed out"),
    }
    assert!(q.has_capacity());
    let (_tx5, rx5) = channel();
    let (_tx6, rx6) = channel();
    assert_eq!(q.enqueue(rx5), Ok(()));
    assert_eq!(q.enqueue(rx6), Err(SinkEnqueueError::AtCapacity));
}

#[test]
fn results_come_out_in_the_order_of_submission() {
    let mut q: AsyncSink<u8> = AsyncSink::new(3);
    let (tx1, rx1) = channel();
    let (tx2, rx2) = channel();
    assert_eq!(q.enqueue(rx1), Ok(()));
    assert_eq!(q.enqueue(rx2), Ok(()));
    // The second unit finishes first; it is held back behind the first.
    tx2.send(Ok(2)).expect("receiver is gone");
    assert!(matches!(q.dequeue(), Err(SinkDequeueError::NotReady)));
    assert_eq!(q.len(), 2);
    tx1.send(Err(ErrorKind::Msg("broken".to_string()))).expect("receiver is gone");
    match q.dequeue() {
        Ok(Err(ErrorKind::Msg(m))) => assert_eq!(m, "broken"),
        _ => panic!("the first unit did not come first"),
    }
    match q.dequeue() {
        Ok(Ok(2)) => {}
        _ => panic!("the second unit did not come second"),
    }
    assert!(matches!(q.dequeue(), Err(SinkDequeueError::Empty)));
}

#[test]
fn settle_decides_from_what_was_polled() {
    let mut q: AsyncSink<u8> = AsyncSink::new(1);
    assert!(matches!(q.settle(Some(Ok(1))), Err(SinkDequeueError::Empty)));
    let (_tx, rx) = channel();
    assert_eq!(q.enqueue(rx), Ok(()));
    assert!(matches!(q.settle(None), Err(SinkDequeueError::NotReady)));
    assert_eq!(q.len(), 1);
    assert!(matches!(q.settle(Some(Ok(9))), Ok(Ok(9))));
    assert_eq!(q.len(), 0);
}

#[test]
fn sink_without_capacity_admits_nothing() {
    let mut q: AsyncSink<u8> = AsyncSink::new(0);
    let (_tx, rx) = channel();
    assert!(!q.has_capacity());
    assert_eq!(q.enqueue(rx), Err(SinkEnqueueError::AtCapacity));
    assert!(q.poll().is_none());
}

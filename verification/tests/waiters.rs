use lib::task::TaskId;
use lib::waiters::{dequeue_waiter, enqueue_waiter, remove_waiter, WaitQueue};

#[test]
fn waiter_slots_are_fifo() {
    let mut w = [None, None, None];
    assert_eq!(enqueue_waiter(&mut w, TaskId(1)), Ok(()));
    assert_eq!(enqueue_waiter(&mut w, TaskId(2)), Ok(()));
    assert_eq!(enqueue_waiter(&mut w, TaskId(1)), Ok(()));
    assert_eq!(w, [Some(TaskId(1)), Some(TaskId(2)), None]);
    assert_eq!(enqueue_waiter(&mut w, TaskId(3)), Ok(()));
    assert_eq!(enqueue_waiter(&mut w, TaskId(4)), Err(()));
    assert!(remove_waiter(&mut w, TaskId(2)));
    assert!(!remove_waiter(&mut w, TaskId(2)));
    assert_eq!(w, [Some(TaskId(1)), Some(TaskId(3)), None]);
    assert_eq!(dequeue_waiter(&mut w), Some(TaskId(1)));
    assert_eq!(dequeue_waiter(&mut w), Some(TaskId(3)));
    assert_eq!(dequeue_waiter(&mut w), None);
}

#[test]
fn waiter_slots_close_gaps() {
    let mut w = [None, Some(TaskId(5)), None, Some(TaskId(6))];
    assert_eq!(dequeue_waiter(&mut w), Some(TaskId(5)));
    assert_eq!(w, [None, None, Some(TaskId(6)), None]);
    assert_eq!(enqueue_waiter(&mut w, TaskId(7)), Ok(()));
    assert_eq!(w, [Some(TaskId(7)), None, Some(TaskId(6)), None]);
}

#[test]
fn wait_queue_keeps_order() {
    let mut q = WaitQueue::new();
    assert_eq!(q.enqueue(TaskId(0)), Ok(()));
    assert_eq!(q.enqueue(TaskId(1)), Ok(()));
    assert_eq!(q.enqueue(TaskId(2)), Err(()));
    assert!(q.remove(TaskId(0)));
    assert_eq!(q.enqueue(TaskId(2)), Ok(()));
    assert_eq!(q.dequeue(), Some(TaskId(1)));
    assert_eq!(q.dequeue(), Some(TaskId(2)));
    assert_eq!(q.dequeue(), None);
}

use sim_kernel::queue::TimedQueue;

#[test]
fn new_queue_is_empty() {
    let queue: TimedQueue<u32> = TimedQueue::new();
    assert!(queue.is_empty());
    assert_eq!(queue.len(), 0);
    assert_eq!(queue.front(), None);
    assert_eq!(queue.pending_pushes(), 0);
    assert_eq!(queue.pending_pops(), 0);
}

#[test]
fn push_is_invisible_until_commit() {
    let mut queue: TimedQueue<u32> = TimedQueue::new();
    queue.buffer_push(150, 7);
    assert!(queue.is_empty());
    assert_eq!(queue.front(), None);
    queue.commit(100);
    assert!(queue.is_empty());
    assert_eq!(queue.pending_pushes(), 1);
    queue.commit(150);
    assert!(!queue.is_empty());
    assert_eq!(queue.front(), Some(7));
    assert_eq!(queue.pending_pushes(), 0);
}

#[test]
fn front_does_not_consume() {
    let mut queue: TimedQueue<u32> = TimedQueue::new();
    queue.buffer_push(50, 7);
    queue.commit(50);
    assert_eq!(queue.front(), Some(7));
    assert_eq!(queue.front(), Some(7));
    assert_eq!(queue.len(), 1);
}

#[test]
fn values_leave_in_the_order_of_arrival() {
    let mut queue: TimedQueue<u32> = TimedQueue::new();
    queue.buffer_push(50, 1);
    queue.buffer_push(50, 2);
    queue.buffer_push(50, 3);
    queue.commit(50);
    assert_eq!(queue.len(), 3);
    assert_eq!(queue.front(), Some(1));
    queue.buffer_pop(150);
    queue.commit(100);
    assert_eq!(queue.front(), Some(1));
    queue.commit(150);
    assert_eq!(queue.front(), Some(2));
    queue.buffer_pop(250);
    queue.commit(250);
    assert_eq!(queue.front(), Some(3));
    queue.buffer_pop(350);
    queue.commit(350);
    assert_eq!(queue.front(), None);
    assert!(queue.is_empty());
}

#[test]
fn later_push_issued_first_arrives_last() {
    let mut queue: TimedQueue<u32> = TimedQueue::new();
    queue.buffer_push(250, 1);
    queue.buffer_push(150, 2);
    queue.commit(150);
    assert_eq!(queue.front(), Some(2));
    assert_eq!(queue.len(), 1);
    queue.commit(250);
    assert_eq!(queue.len(), 2);
    queue.buffer_pop(300);
    queue.commit(300);
    assert_eq!(queue.front(), Some(1));
}

#[test]
fn pop_on_an_empty_queue_is_silently_dropped() {
    let mut queue: TimedQueue<u32> = TimedQueue::new();
    queue.buffer_pop(50);
    assert_eq!(queue.pending_pops(), 1);
    queue.commit(50);
    assert_eq!(queue.pending_pops(), 0);
    assert!(queue.is_empty());
    queue.buffer_push(150, 4);
    queue.commit(150);
    assert_eq!(queue.front(), Some(4));
    assert_eq!(queue.len(), 1);
}

#[test]
fn more_pops_than_values_empty_the_queue() {
    let mut queue: TimedQueue<u32> = TimedQueue::new();
    queue.buffer_push(50, 1);
    queue.buffer_push(50, 2);
    queue.commit(50);
    queue.buffer_pop(150);
    queue.buffer_pop(150);
    queue.buffer_pop(150);
    queue.commit(150);
    assert!(queue.is_empty());
    assert_eq!(queue.pending_pops(), 0);
}

#[test]
fn pushes_are_applied_before_pops_of_the_same_commit() {
    let mut queue: TimedQueue<u32> = TimedQueue::new();
    queue.buffer_pop(50);
    queue.buffer_push(50, 9);
    queue.commit(50);
    assert!(queue.is_empty());
    assert_eq!(queue.pending_pushes(), 0);
    assert_eq!(queue.pending_pops(), 0);
}

#[test]
fn pop_and_push_of_one_commit_keep_the_order() {
    let mut queue: TimedQueue<u32> = TimedQueue::new();
    queue.buffer_push(50, 1);
    queue.commit(50);
    queue.buffer_pop(150);
    queue.buffer_push(150, 2);
    queue.commit(150);
    assert_eq!(queue.len(), 1);
    assert_eq!(queue.front(), Some(2));
}

#[test]
fn commit_with_nothing_due_is_a_no_op() {
    let mut queue: TimedQueue<u32> = TimedQueue::new();
    queue.buffer_push(50, 1);
    queue.commit(50);
    queue.buffer_push(500, 2);
    queue.buffer_pop(500);
    queue.commit(100);
    queue.commit(100);
    queue.commit(499);
    assert_eq!(queue.len(), 1);
    assert_eq!(queue.front(), Some(1));
    assert_eq!(queue.pending_pushes(), 1);
    assert_eq!(queue.pending_pops(), 1);
}

#[test]
fn queue_of_booleans() {
    let mut queue: TimedQueue<bool> = TimedQueue::new();
    queue.buffer_push(50, true);
    queue.buffer_push(50, false);
    queue.commit(50);
    assert_eq!(queue.front(), Some(true));
    queue.buffer_pop(150);
    queue.commit(150);
    assert_eq!(queue.front(), Some(false));
}

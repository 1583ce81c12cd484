use sim_kernel::schedule::EventSchedule;
use sim_kernel::timing::{
    settle_stamp, wake_stamp, CYCLE_BUDGET, IDLE_THRESHOLD, SETTLE_OFFSET, STRIDE,
};

#[test]
fn empty_schedule_is_never_due() {
    let schedule = EventSchedule::new();
    assert_eq!(schedule.len(), 0);
    assert_eq!(schedule.earliest(), None);
    assert!(!schedule.is_due(0));
    assert!(!schedule.is_due(usize::MAX));
}

#[test]
fn schedule_is_due_once_the_clock_reaches_the_front_entry() {
    let mut schedule = EventSchedule::new();
    schedule.push_future(200);
    assert_eq!(schedule.earliest(), Some(200));
    assert!(!schedule.is_due(100));
    assert!(!schedule.is_due(199));
    assert!(schedule.is_due(200));
    assert!(schedule.is_due(300));
}

#[test]
fn only_the_front_entry_is_inspected() {
    let mut schedule = EventSchedule::new();
    schedule.push_future(300);
    schedule.push_future(100);
    assert!(!schedule.is_due(200));
    assert_eq!(schedule.earliest(), Some(300));
}

#[test]
fn consume_due_removes_the_front_entry() {
    let mut schedule = EventSchedule::new();
    schedule.push_future(100);
    schedule.push_future(200);
    schedule.push_future(300);
    schedule.consume_due();
    assert_eq!(schedule.len(), 2);
    assert_eq!(schedule.earliest(), Some(200));
    assert!(!schedule.is_due(100));
    schedule.consume_due();
    schedule.consume_due();
    assert_eq!(schedule.len(), 0);
}

#[test]
fn consume_due_on_an_empty_schedule_changes_nothing() {
    let mut schedule = EventSchedule::new();
    schedule.consume_due();
    assert_eq!(schedule.len(), 0);
    schedule.push_future(100);
    assert_eq!(schedule.earliest(), Some(100));
}

#[test]
fn timing_parameters() {
    assert_eq!(STRIDE, 100);
    assert_eq!(SETTLE_OFFSET, 50);
    assert_eq!(CYCLE_BUDGET, 100);
    assert_eq!(IDLE_THRESHOLD, 100);
}

#[test]
fn settle_stamp_is_the_midpoint_of_the_cycle() {
    assert_eq!(settle_stamp(0), 50);
    assert_eq!(settle_stamp(100), 150);
    assert_eq!(settle_stamp(130), 150);
    assert_eq!(settle_stamp(150), 150);
    assert_eq!(settle_stamp(199), 150);
    assert_eq!(settle_stamp(10000), 10050);
}

#[test]
fn wake_stamp_is_the_next_cycle_boundary() {
    assert_eq!(wake_stamp(0), 100);
    assert_eq!(wake_stamp(100), 200);
    assert_eq!(wake_stamp(150), 200);
    assert_eq!(wake_stamp(199), 200);
    assert_eq!(wake_stamp(9900), 10000);
}

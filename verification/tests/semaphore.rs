use lib::scheduler::{Scheduler, Switch, WaitStep, IDLE_TASK_INDEX, MAX_TASKS};
use lib::semaphore::{BinarySemaphore, CountingSemaphore};
use lib::task::{TaskId, TaskState, TaskWakeReason};
use lib::timer::{deadline_after_ticks, on_systick, Deadline};

fn two_tasks() -> Scheduler {
    let mut s = Scheduler::new(0x0800_0001, 0x0800_0003);
    for i in 0..MAX_TASKS {
        s.set_stack_base(i, 0x2000_0000 + (i as u32) * 0x1000);
    }
    assert_eq!(s.spawn(0x100), Ok(TaskId(0)));
    assert_eq!(s.spawn(0x200), Ok(TaskId(1)));
    assert_eq!(s.start(), Some(0));
    s
}

fn is_switch<R, K>(step: &WaitStep<R, K>, from: usize, to: usize) -> bool {
    matches!(step, WaitStep::Switch(sw, _) if *sw == Switch { from, to })
}

#[test]
fn binary_semaphore_holds_one_token() {
    let mut s = two_tasks();
    let mut sem = BinarySemaphore::new(false);
    assert!(!sem.try_take());
    assert!(sem.give(&mut s));
    assert!(!sem.give(&mut s));
    assert!(sem.try_take());
    assert!(!sem.try_take());
    let mut full = BinarySemaphore::new(true);
    assert!(full.try_take());
}

#[test]
fn give_hands_token_to_blocked_taker() {
    let mut s = two_tasks();
    let mut sem = BinarySemaphore::new(false);
    let step = sem.take(&mut s);
    assert!(is_switch(&step, 0, 1));
    assert_eq!(s.task_state(TaskId(0)), Some(TaskState::Blocked));
    assert!(sem.give(&mut s));
    assert_eq!(s.task_state(TaskId(0)), Some(TaskState::Ready));
    assert!(!sem.try_take());
    s.yield_now();
    let reason = s.resume_blocked();
    assert_eq!(reason, TaskWakeReason::Semaphore);
    assert!(matches!(sem.take_resume(&mut s, reason), WaitStep::Done(())));
}

#[test]
fn take_until_reached_deadline_only_tries() {
    let mut s = two_tasks();
    let mut sem = BinarySemaphore::new(false);
    assert!(matches!(sem.take_until(&mut s, Deadline::at_tick(0)), WaitStep::Done(false)));
    let mut ready = BinarySemaphore::new(true);
    assert!(matches!(ready.take_until(&mut s, Deadline::at_tick(0)), WaitStep::Done(true)));
}

#[test]
fn take_until_times_out() {
    let mut s = two_tasks();
    let mut sem = BinarySemaphore::new(false);
    let d = deadline_after_ticks(&s, 3);
    let step = sem.take_until(&mut s, d);
    assert!(is_switch(&step, 0, 1));
    for _ in 0..3 {
        on_systick(&mut s);
    }
    assert_eq!(s.task_state(TaskId(0)), Some(TaskState::Ready));
    s.yield_now();
    let reason = s.resume_blocked();
    assert_eq!(reason, TaskWakeReason::Timeout);
    assert!(matches!(sem.take_until_resume(&mut s, d, reason), WaitStep::Done(false)));
    // The timed-out waiter left the queue: a give now keeps the token.
    assert!(sem.give(&mut s));
    assert!(sem.try_take());
}

#[test]
fn take_spins_when_nothing_else_can_run() {
    let mut s = Scheduler::new(0x0800_0001, 0x0800_0003);
    s.set_stack_base(0, 0x2000_0000);
    // A misaligned idle stack leaves the idle task unprepared.
    s.set_stack_base(IDLE_TASK_INDEX, 0x2000_2004);
    assert_eq!(s.spawn(0x100), Ok(TaskId(0)));
    assert_eq!(s.start(), Some(0));
    let mut sem = BinarySemaphore::new(false);
    assert!(matches!(sem.take(&mut s), WaitStep::Spin(())));
    assert!(matches!(sem.take_resume(&mut s, TaskWakeReason::NotWoken), WaitStep::Spin(())));
    // The spinning taker is queued while it spins, so a give hands it the
    // token through the queue and wakes nothing: the token is not kept.
    assert!(sem.give(&mut s));
    assert!(!sem.try_take());
    assert!(matches!(sem.take_resume(&mut s, TaskWakeReason::NotWoken), WaitStep::Spin(())));
}

#[test]
fn take_blocks_even_for_the_top_priority_task() {
    let mut s = Scheduler::new(0x0800_0001, 0x0800_0003);
    for i in 0..MAX_TASKS {
        s.set_stack_base(i, 0x2000_0000 + (i as u32) * 0x1000);
    }
    assert_eq!(s.spawn(0x100), Ok(TaskId(0)));
    assert_eq!(s.start(), Some(0));
    let mut sem = BinarySemaphore::new(false);
    let step = sem.take(&mut s);
    assert!(is_switch(&step, 0, IDLE_TASK_INDEX));
    assert_eq!(s.task_state(TaskId(0)), Some(TaskState::Blocked));
    // A give from idle hands the token to the blocked taker and wakes it.
    assert!(sem.give(&mut s));
    assert!(!sem.is_available());
    assert_eq!(s.task_state(TaskId(0)), Some(TaskState::Ready));
    assert_eq!(s.yield_now(), lib::scheduler::Reschedule::Yield(Switch { from: IDLE_TASK_INDEX, to: 0 }));
    let reason = s.resume_blocked();
    assert_eq!(reason, TaskWakeReason::Semaphore);
    assert!(matches!(sem.take_resume(&mut s, reason), WaitStep::Done(())));
}

#[test]
fn counting_semaphore_clamps_and_counts() {
    let mut s = two_tasks();
    let mut sem = CountingSemaphore::new(5, 3);
    assert_eq!(sem.count(), 3);
    assert!(!sem.give(&mut s));
    assert!(sem.try_take());
    assert!(sem.try_take());
    assert!(sem.try_take());
    assert!(!sem.try_take());
    assert!(sem.give(&mut s));
    assert_eq!(sem.count(), 1);
    let small = CountingSemaphore::new(1, 4);
    assert_eq!(small.count(), 1);
}

#[test]
fn counting_give_wakes_oldest_waiter_first() {
    let mut s = two_tasks();
    let mut sem = CountingSemaphore::new(0, 2);
    let step = sem.take(&mut s);
    assert!(is_switch(&step, 0, 1));
    assert!(sem.give(&mut s));
    assert_eq!(sem.count(), 0);
    assert_eq!(s.task_state(TaskId(0)), Some(TaskState::Ready));
    assert!(sem.give(&mut s));
    assert_eq!(sem.count(), 1);
    let d = deadline_after_ticks(&s, 5);
    assert!(matches!(sem.take_until(&mut s, d), WaitStep::Done(true)));
}

#[test]
fn gives_wake_waiters_in_queue_order() {
    let mut s = two_tasks();
    let mut sem = BinarySemaphore::new(false);
    assert!(is_switch(&sem.take(&mut s), 0, 1));
    assert!(s.set_task_effective_priority(TaskId(1), 0));
    assert!(is_switch(&sem.take(&mut s), 1, IDLE_TASK_INDEX));
    assert!(sem.give(&mut s));
    assert_eq!(s.task_state(TaskId(0)), Some(TaskState::Ready));
    assert_eq!(s.task_state(TaskId(1)), Some(TaskState::Blocked));
    assert!(sem.give(&mut s));
    assert_eq!(s.task_state(TaskId(1)), Some(TaskState::Ready));
    assert!(!sem.is_available());
    assert!(sem.give(&mut s));
    assert!(sem.is_available());
}

use lib::mutex::Mutex;
use lib::priority::MutexPriorityTable;
use lib::scheduler::{Scheduler, Switch, WaitStep, MAX_TASKS};
use lib::task::{TaskId, TaskState, TaskWaitKind, TaskWakeReason};
use lib::timer::{deadline_after_ticks, on_systick, Deadline};

fn two_tasks() -> Scheduler {
    let mut s = Scheduler::new(0x0800_0001, 0x0800_0003);
    for i in 0..MAX_TASKS {
        s.set_stack_base(i, 0x2000_0000 + (i as u32) * 0x1000);
    }
    assert_eq!(s.spawn(0x100), Ok(TaskId(0)));
    assert_eq!(s.spawn(0x200), Ok(TaskId(1)));
    assert_eq!(s.start(), Some(0));
    s
}

#[test]
fn try_lock_and_unlock() {
    let mut s = two_tasks();
    let mut t = MutexPriorityTable::new();
    let mut m = Mutex::new(0x2000_1000);
    assert_eq!(m.owner(), None);
    assert!(m.try_lock(&s));
    assert_eq!(m.owner(), Some(TaskId(0)));
    assert!(!m.try_lock(&s));
    assert!(m.unlock(&mut s, &mut t));
    assert_eq!(m.owner(), None);
}

#[test]
fn unlock_hands_mutex_to_waiter() {
    let mut s = two_tasks();
    let mut t = MutexPriorityTable::new();
    let mut m = Mutex::new(0x2000_1000);
    assert!(matches!(m.lock(&mut s, &mut t), WaitStep::Done(())));
    s.yield_now();
    assert_eq!(s.current_task_id(), Some(TaskId(1)));
    let step = m.lock(&mut s, &mut t);
    assert!(matches!(step, WaitStep::Switch(sw, ()) if sw == Switch { from: 1, to: 0 }));
    assert_eq!(s.task_state(TaskId(1)), Some(TaskState::Blocked));
    assert!(m.unlock(&mut s, &mut t));
    assert_eq!(m.owner(), Some(TaskId(1)));
    assert_eq!(s.task_state(TaskId(1)), Some(TaskState::Ready));
    s.yield_now();
    let reason = s.resume_blocked();
    assert_eq!(reason, TaskWakeReason::Mutex);
    assert!(matches!(m.lock_resume(&mut s, &mut t, reason), WaitStep::Done(())));
}

#[test]
fn lock_until_times_out_or_tries() {
    let mut s = two_tasks();
    let mut t = MutexPriorityTable::new();
    let mut m = Mutex::new(0x2000_1000);
    assert!(matches!(m.lock_until(&mut s, &mut t, Deadline::at_tick(0)), WaitStep::Done(true)));
    s.yield_now();
    assert!(matches!(m.lock_until(&mut s, &mut t, Deadline::at_tick(0)), WaitStep::Done(false)));
    let d = deadline_after_ticks(&s, 2);
    assert!(matches!(m.lock_until(&mut s, &mut t, d), WaitStep::Switch(_, ())));
    on_systick(&mut s);
    on_systick(&mut s);
    assert_eq!(s.task_state(TaskId(1)), Some(TaskState::Ready));
    s.yield_now();
    let reason = s.resume_blocked();
    assert_eq!(reason, TaskWakeReason::Timeout);
    assert!(matches!(m.lock_until_resume(&mut s, &mut t, d, reason), WaitStep::Done(false)));
    assert_eq!(m.owner(), Some(TaskId(0)));
}

#[test]
fn owner_inherits_waiter_priority_until_unlock() {
    let mut s = Scheduler::new(0x0800_0001, 0x0800_0003);
    for i in 0..MAX_TASKS {
        s.set_stack_base(i, 0x2000_0000 + (i as u32) * 0x1000);
    }
    let mut t = MutexPriorityTable::new();
    assert_eq!(s.spawn(0x100), Ok(TaskId(0)));
    assert_eq!(s.spawn_with_priority(0x200, 5), Ok(TaskId(1)));
    let mut m = Mutex::new(0x2000_1000);
    assert_eq!(m.key(), 0x2000_1000);
    assert_eq!(s.start(), Some(1));
    // The high-priority task sleeps; the low one takes the mutex.
    assert_eq!(s.block_current(TaskWaitKind::Sleep, None), lib::scheduler::Reschedule::Block(Switch { from: 1, to: 0 }));
    assert!(matches!(m.lock(&mut s, &mut t), WaitStep::Done(())));
    assert!(s.wake_task(TaskId(1), TaskWakeReason::Timeout));
    s.yield_if_higher_priority_ready();
    assert_eq!(s.current_task_id(), Some(TaskId(1)));
    s.resume_blocked();
    // The high-priority task waits: the owner runs at its priority.
    let step = m.lock(&mut s, &mut t);
    assert!(matches!(step, WaitStep::Switch(sw, ()) if sw == Switch { from: 1, to: 0 }));
    assert_eq!(s.task_effective_priority(TaskId(0)), Some(5));
    assert_eq!(s.task_base_priority(TaskId(0)), Some(1));
    // Unlocking hands the mutex over and drops the owner to its base.
    assert!(m.unlock(&mut s, &mut t));
    assert_eq!(m.owner(), Some(TaskId(1)));
    assert_eq!(s.task_effective_priority(TaskId(0)), Some(1));
    assert_eq!(s.task_effective_priority(TaskId(1)), Some(5));
    assert_eq!(s.task_state(TaskId(1)), Some(TaskState::Ready));
    assert_eq!(s.yield_if_higher_priority_ready(), lib::scheduler::Reschedule::Yield(Switch { from: 0, to: 1 }));
    let reason = s.resume_blocked();
    assert_eq!(reason, TaskWakeReason::Mutex);
    assert!(matches!(m.lock_resume(&mut s, &mut t, reason), WaitStep::Done(())));
}

#[test]
fn timed_out_waiter_stops_boosting_the_owner() {
    let mut s = Scheduler::new(0x0800_0001, 0x0800_0003);
    for i in 0..MAX_TASKS {
        s.set_stack_base(i, 0x2000_0000 + (i as u32) * 0x1000);
    }
    let mut t = MutexPriorityTable::new();
    assert_eq!(s.spawn(0x100), Ok(TaskId(0)));
    assert_eq!(s.spawn_with_priority(0x200, 4), Ok(TaskId(1)));
    let mut m = Mutex::new(0x2000_2000);
    assert_eq!(s.start(), Some(1));
    assert_eq!(s.block_current(TaskWaitKind::Sleep, None), lib::scheduler::Reschedule::Block(Switch { from: 1, to: 0 }));
    assert!(matches!(m.lock(&mut s, &mut t), WaitStep::Done(())));
    assert!(s.wake_task(TaskId(1), TaskWakeReason::Timeout));
    s.yield_if_higher_priority_ready();
    s.resume_blocked();
    let d = deadline_after_ticks(&s, 1);
    assert!(matches!(m.lock_until(&mut s, &mut t, d), WaitStep::Switch(_, ())));
    assert_eq!(s.task_effective_priority(TaskId(0)), Some(4));
    on_systick(&mut s);
    assert_eq!(s.task_state(TaskId(1)), Some(TaskState::Ready));
    // Boosted to the waiter's priority, the owner does not give way to it.
    assert_eq!(s.yield_if_higher_priority_ready(), lib::scheduler::Reschedule::Stay);
    s.yield_now();
    assert_eq!(s.current_task_id(), Some(TaskId(1)));
    let reason = s.resume_blocked();
    assert_eq!(reason, TaskWakeReason::Timeout);
    assert!(matches!(m.lock_until_resume(&mut s, &mut t, d, reason), WaitStep::Done(false)));
    assert_eq!(s.task_effective_priority(TaskId(0)), Some(1));
    assert_eq!(m.owner(), Some(TaskId(0)));
}

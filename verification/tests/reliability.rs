use lib::reliability::{
    check_all_task_stacks, check_task_stack, diagnose_deadlock, kernel_assert, note_stack_overflow, trace,
    trace_snapshot, idle_step, DeadlockMonitor, TraceEvent, TraceKind, TRACE_CAPACITY,
};
use lib::scheduler::{Reschedule, Scheduler, Switch, MAX_TASKS, IDLE_TASK_INDEX};
use lib::task::{TaskId, TaskWaitKind, TaskWakeReason};

fn kernel() -> Scheduler {
    let mut s = Scheduler::new(0x0800_0001, 0x0800_0003);
    for i in 0..MAX_TASKS {
        s.set_stack_base(i, 0x2000_0000 + (i as u32) * 0x1000);
    }
    s
}

#[test]
fn trace_ring_keeps_newest_events() {
    let mut s = kernel();
    assert_eq!(trace_snapshot(&s)[0], TraceEvent::empty());
    for i in 0..(TRACE_CAPACITY as u32 + 1) {
        trace(&mut s, TraceKind::Wake, None, i, 0);
    }
    let snap = trace_snapshot(&s);
    assert_eq!(snap[0].arg0, TRACE_CAPACITY as u32);
    assert_eq!(snap[1].arg0, 1);
    assert_eq!(snap[TRACE_CAPACITY - 1].arg0, TRACE_CAPACITY as u32 - 1);
}

#[test]
fn scheduler_events_are_traced() {
    let mut s = kernel();
    assert_eq!(s.spawn_with_priority(0x100, 7), Ok(TaskId(0)));
    let snap = trace_snapshot(&s);
    assert_eq!(snap[0], TraceEvent { tick: 0, kind: TraceKind::Spawn, task: Some(TaskId(0)), arg0: 7, arg1: 0 });
    assert_eq!(s.spawn_with_priority(0x200, 7), Ok(TaskId(1)));
    assert_eq!(s.start(), Some(0));
    assert_eq!(s.block_current(TaskWaitKind::Mutex, None), Reschedule::Block(Switch { from: 0, to: 1 }));
    let snap = trace_snapshot(&s);
    assert_eq!(snap[2], TraceEvent { tick: 0, kind: TraceKind::Block, task: Some(TaskId(0)), arg0: 3, arg1: 0 });
    assert_eq!(snap[3], TraceEvent { tick: 0, kind: TraceKind::Switch, task: Some(TaskId(1)), arg0: 0, arg1: 1 });
    assert!(s.wake_task(TaskId(0), TaskWakeReason::Mutex));
    assert_eq!(trace_snapshot(&s)[4], TraceEvent { tick: 0, kind: TraceKind::Wake, task: Some(TaskId(0)), arg0: 3, arg1: 0 });
}

#[test]
fn failed_assertion_is_traced() {
    let mut s = kernel();
    assert!(kernel_assert(&mut s, true, "fine"));
    assert_eq!(trace_snapshot(&s)[0], TraceEvent::empty());
    assert!(!kernel_assert(&mut s, false, "boom"));
    assert_eq!(trace_snapshot(&s)[0], TraceEvent { tick: 0, kind: TraceKind::AssertFailed, task: None, arg0: 4, arg1: 0 });
}

#[test]
fn stack_checks_report_nothing_for_healthy_stacks() {
    let mut s = kernel();
    assert_eq!(s.spawn(0x100), Ok(TaskId(0)));
    assert_eq!(check_task_stack(&mut s, TaskId(0)), None);
    assert_eq!(check_task_stack(&mut s, TaskId(9)), None);
    assert_eq!(check_all_task_stacks(&mut s), None);
    note_stack_overflow(&mut s, TaskId(0), 300);
    assert_eq!(trace_snapshot(&s)[1], TraceEvent { tick: 0, kind: TraceKind::StackOverflow, task: Some(TaskId(0)), arg0: 300, arg1: 256 });
    note_stack_overflow(&mut s, TaskId(5), 1);
    assert_eq!(trace_snapshot(&s)[2].arg1, 0);
}

#[test]
fn deadlock_is_reported_once_per_episode() {
    let mut s = kernel();
    let mut monitor = DeadlockMonitor::new();
    assert_eq!(s.spawn(0x100), Ok(TaskId(0)));
    assert_eq!(s.spawn(0x200), Ok(TaskId(1)));
    assert_eq!(s.start(), Some(0));
    assert!(!diagnose_deadlock(&mut monitor, &mut s));
    assert_eq!(s.block_current(TaskWaitKind::Semaphore, None), Reschedule::Block(Switch { from: 0, to: 1 }));
    assert!(s.set_task_effective_priority(TaskId(1), 0));
    assert_eq!(s.block_current(TaskWaitKind::Mutex, None), Reschedule::Block(Switch { from: 1, to: IDLE_TASK_INDEX }));
    assert!(s.blocked_tasks_have_no_deadlines());
    assert!(diagnose_deadlock(&mut monitor, &mut s));
    assert!(monitor.reported());
    assert!(!diagnose_deadlock(&mut monitor, &mut s));
    assert!(s.wake_task(TaskId(0), TaskWakeReason::Semaphore));
    assert!(!diagnose_deadlock(&mut monitor, &mut s));
    assert!(!monitor.reported());
    assert_eq!(s.on_tick(), None);
    assert_eq!(s.yield_now(), Reschedule::Yield(Switch { from: IDLE_TASK_INDEX, to: 0 }));
    assert_eq!(s.block_current(TaskWaitKind::Semaphore, None), Reschedule::Block(Switch { from: 0, to: IDLE_TASK_INDEX }));
}

#[test]
fn idle_step_stretches_tick_or_reports_deadlock() {
    let mut s = kernel();
    let mut monitor = DeadlockMonitor::new();
    assert_eq!(s.spawn(0x100), Ok(TaskId(0)));
    assert_eq!(s.spawn(0x200), Ok(TaskId(1)));
    assert_eq!(s.start(), Some(0));
    assert_eq!(lib::timer::sleep_ticks(&mut s, 50), Reschedule::Block(Switch { from: 0, to: 1 }));
    assert_eq!(s.block_current(TaskWaitKind::Semaphore, None), Reschedule::Block(Switch { from: 1, to: IDLE_TASK_INDEX }));
    let action = idle_step(&mut monitor, &mut s);
    assert_eq!(action.reload, Some(50 * 8_000 - 1));
    assert!(!action.deadlock);
    assert!(!monitor.reported());
    // With no sleeper left, the blocked tasks are a deadlock, reported once.
    assert!(s.wake_task(TaskId(0), TaskWakeReason::Semaphore));
    assert_eq!(s.yield_now(), Reschedule::Yield(Switch { from: IDLE_TASK_INDEX, to: 0 }));
    assert_eq!(s.block_current(TaskWaitKind::Mutex, None), Reschedule::Block(Switch { from: 0, to: IDLE_TASK_INDEX }));
    let action = idle_step(&mut monitor, &mut s);
    assert_eq!(action.reload, None);
    assert!(action.deadlock);
    assert!(!idle_step(&mut monitor, &mut s).deadlock);
}

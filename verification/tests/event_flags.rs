use lib::event_flags::{EventFlags, WaitMode};
use lib::scheduler::{Scheduler, Switch, WaitStep, MAX_TASKS};
use lib::task::{TaskId, TaskState, TaskWakeReason};
use lib::timer::{deadline_after_ticks, on_systick, Deadline};

fn two_tasks() -> Scheduler {
    let mut s = Scheduler::new(0x0800_0001, 0x0800_0003);
    for i in 0..MAX_TASKS {
        s.set_stack_base(i, 0x2000_0000 + (i as u32) * 0x1000);
    }
    assert_eq!(s.spawn(0x100), Ok(TaskId(0)));
    assert_eq!(s.spawn(0x200), Ok(TaskId(1)));
    assert_eq!(s.start(), Some(0));
    s
}

#[test]
fn flags_set_clear_and_match() {
    let mut s = two_tasks();
    let mut f = EventFlags::new();
    assert_eq!(f.bits(), 0);
    f.set(&mut s, 0b101);
    assert_eq!(f.bits(), 0b101);
    assert!(f.is_set(0b100, WaitMode::Any));
    assert!(f.is_set(0b110, WaitMode::Any));
    assert!(!f.is_set(0b110, WaitMode::All));
    assert!(f.is_set(0b101, WaitMode::All));
    assert!(!f.is_set(0b010, WaitMode::Any));
    assert_eq!(f.try_wait(0b011, WaitMode::Any, true), Some(0b001));
    assert_eq!(f.bits(), 0b100);
    assert_eq!(f.try_wait(0b110, WaitMode::All, false), None);
    assert_eq!(f.try_wait(0b100, WaitMode::All, false), Some(0b100));
    assert_eq!(f.bits(), 0b100);
    f.clear(0b100);
    assert_eq!(f.bits(), 0);
}

#[test]
fn set_wakes_every_waiter() {
    let mut s = two_tasks();
    let mut f = EventFlags::new();
    let step = f.wait(&mut s, 0b10, WaitMode::All, true);
    assert!(matches!(step, WaitStep::Switch(sw, ()) if sw == Switch { from: 0, to: 1 }));
    f.set(&mut s, 0b01);
    assert_eq!(s.task_state(TaskId(0)), Some(TaskState::Ready));
    s.yield_now();
    let reason = s.resume_blocked();
    assert_eq!(reason, TaskWakeReason::EventFlags);
    let step = f.wait_resume(&mut s, 0b10, WaitMode::All, true, reason);
    assert!(matches!(step, WaitStep::Switch(sw, ()) if sw == Switch { from: 0, to: 1 }));
    f.set(&mut s, 0b10);
    s.yield_now();
    let reason = s.resume_blocked();
    assert!(matches!(f.wait_resume(&mut s, 0b10, WaitMode::All, true, reason), WaitStep::Done(0b10)));
    assert_eq!(f.bits(), 0b01);
}

#[test]
fn wait_until_times_out_or_checks() {
    let mut s = two_tasks();
    let mut f = EventFlags::new();
    assert!(matches!(f.wait_until(&mut s, 1, WaitMode::Any, false, Deadline::at_tick(0)), WaitStep::Done(None)));
    let d = deadline_after_ticks(&s, 1);
    assert!(matches!(f.wait_until(&mut s, 1, WaitMode::Any, false, d), WaitStep::Switch(_, ())));
    on_systick(&mut s);
    s.yield_now();
    let reason = s.resume_blocked();
    assert_eq!(reason, TaskWakeReason::Timeout);
    assert!(matches!(f.wait_until_resume(&mut s, 1, WaitMode::Any, false, d, reason), WaitStep::Done(None)));
    f.set(&mut s, 1);
    let d2 = deadline_after_ticks(&s, 5);
    assert!(matches!(f.wait_until(&mut s, 1, WaitMode::Any, false, d2), WaitStep::Done(Some(1))));
}

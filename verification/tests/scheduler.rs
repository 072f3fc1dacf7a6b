use lib::scheduler::{is_idle_task, Reschedule, Scheduler, SpawnError, Switch, MAX_TASKS, IDLE_TASK_INDEX};
use lib::task::{TaskId, TaskInitError, TaskState, TaskWaitKind, TaskWakeReason};
use lib::timer::{deadline_after_ticks, on_systick, sleep_ticks, tick_count, Deadline};

fn kernel() -> Scheduler {
    let mut s = Scheduler::new(0x0800_0001, 0x0800_0003);
    for i in 0..MAX_TASKS {
        s.set_stack_base(i, 0x2000_0000 + (i as u32) * 0x1000);
    }
    s
}

fn started_with_two_tasks() -> Scheduler {
    let mut s = kernel();
    assert_eq!(s.spawn(0x100), Ok(TaskId(0)));
    assert_eq!(s.spawn(0x200), Ok(TaskId(1)));
    assert_eq!(s.start(), Some(0));
    s
}

#[test]
fn spawn_fills_user_slots_then_refuses() {
    let mut s = kernel();
    assert_eq!(s.spawn(0x100), Ok(TaskId(0)));
    assert_eq!(s.spawn_with_priority(0x200, 4), Ok(TaskId(1)));
    assert_eq!(s.spawn(0x300), Err(SpawnError::NoSlots));
    assert_eq!(s.task_state(TaskId(0)), Some(TaskState::Ready));
    assert_eq!(s.task_base_priority(TaskId(1)), Some(4));
    assert_eq!(s.task_effective_priority(TaskId(1)), Some(4));
    assert_eq!(s.task_state(TaskId(IDLE_TASK_INDEX)), Some(TaskState::Dormant));
    assert_eq!(s.task_state(TaskId(9)), None);
    assert_eq!(s.task(0).entry(), Some(0x100));
}

#[test]
fn spawn_reports_misaligned_stack() {
    let mut s = kernel();
    s.set_stack_base(0, 0x2000_0004);
    assert_eq!(s.spawn(0x100), Err(SpawnError::TaskInit(TaskInitError::MisalignedStack)));
    assert_eq!(s.task_state(TaskId(0)), Some(TaskState::Dormant));
}

#[test]
fn start_runs_first_highest_priority_task() {
    let mut s = kernel();
    assert_eq!(s.spawn(0x100), Ok(TaskId(0)));
    assert_eq!(s.spawn_with_priority(0x200, 3), Ok(TaskId(1)));
    assert_eq!(s.start(), Some(1));
    assert_eq!(s.current_task_id(), Some(TaskId(1)));
    assert_eq!(s.task_state(TaskId(1)), Some(TaskState::Running));
    assert_eq!(s.task_state(TaskId(IDLE_TASK_INDEX)), Some(TaskState::Ready));
    assert_eq!(s.task_effective_priority(TaskId(IDLE_TASK_INDEX)), Some(0));
    assert_eq!(s.task(1).saved_psp(), 0x2000_1000 + 4 * 240);
}

#[test]
fn start_with_only_idle_runs_idle() {
    let mut s = kernel();
    assert_eq!(s.start(), Some(IDLE_TASK_INDEX));
    assert!(s.only_idle_runnable());
}

#[test]
fn start_without_runnable_task_fails() {
    let mut s = kernel();
    s.set_stack_base(IDLE_TASK_INDEX, 0x2000_0004);
    assert_eq!(s.start(), None);
    assert_eq!(s.current_task_id(), None);
}

#[test]
fn yield_rotates_equal_priorities() {
    let mut s = started_with_two_tasks();
    assert_eq!(s.yield_now(), Reschedule::Yield(Switch { from: 0, to: 1 }));
    assert_eq!(s.task_state(TaskId(0)), Some(TaskState::Ready));
    assert_eq!(s.task_state(TaskId(1)), Some(TaskState::Running));
    assert_eq!(s.yield_now(), Reschedule::Yield(Switch { from: 1, to: 0 }));
    assert_eq!(s.current_task_id(), Some(TaskId(0)));
}

#[test]
fn yield_with_nothing_else_runnable_stays() {
    let mut s = kernel();
    s.set_stack_base(IDLE_TASK_INDEX, 0x2000_0004);
    assert_eq!(s.spawn(0x100), Ok(TaskId(0)));
    assert_eq!(s.start(), Some(0));
    assert_eq!(s.yield_now(), Reschedule::Stay);
    assert_eq!(s.switch_to_next(TaskState::Ready, false), None);
}

#[test]
fn time_slice_expires_after_ten_ticks() {
    let mut s = started_with_two_tasks();
    for _ in 0..9 {
        let action = on_systick(&mut s);
        assert_eq!(action.reload, None);
        assert_eq!(action.switch, None);
    }
    let action = on_systick(&mut s);
    assert_eq!(action.switch, Some(Switch { from: 0, to: 1 }));
    assert_eq!(tick_count(&s), 10);
}

#[test]
fn higher_priority_ready_task_preempts() {
    let mut s = kernel();
    assert_eq!(s.spawn(0x100), Ok(TaskId(0)));
    assert_eq!(s.start(), Some(0));
    assert_eq!(s.yield_if_higher_priority_ready(), Reschedule::Stay);
    assert_eq!(s.spawn_with_priority(0x200, 5), Ok(TaskId(1)));
    assert_eq!(s.yield_if_higher_priority_ready(), Reschedule::Yield(Switch { from: 0, to: 1 }));
    assert!(s.set_task_effective_priority(TaskId(0), 9));
    assert!(!s.set_task_effective_priority(TaskId(5), 9));
    assert_eq!(s.yield_if_higher_priority_ready(), Reschedule::Yield(Switch { from: 1, to: 0 }));
}

#[test]
fn block_then_wake_delivers_reason() {
    let mut s = started_with_two_tasks();
    assert_eq!(
        s.block_current(TaskWaitKind::Semaphore, None),
        Reschedule::Block(Switch { from: 0, to: 1 })
    );
    assert_eq!(s.task_state(TaskId(0)), Some(TaskState::Blocked));
    assert_eq!(s.task_wait_kind(TaskId(0)), Some(TaskWaitKind::Semaphore));
    assert!(!s.wake_task(TaskId(1), TaskWakeReason::Semaphore));
    assert!(!s.wake_task(TaskId(7), TaskWakeReason::Semaphore));
    assert!(s.wake_task(TaskId(0), TaskWakeReason::Semaphore));
    assert_eq!(s.task_state(TaskId(0)), Some(TaskState::Ready));
    assert_eq!(s.task_wait_kind(TaskId(0)), Some(TaskWaitKind::NotWaiting));
    assert_eq!(s.yield_now(), Reschedule::Yield(Switch { from: 1, to: 0 }));
    assert_eq!(s.resume_blocked(), TaskWakeReason::Semaphore);
    assert_eq!(s.resume_blocked(), TaskWakeReason::NotWoken);
}

#[test]
fn block_without_other_runnable_task_stays() {
    let mut s = kernel();
    // A misaligned idle stack leaves the idle task unprepared.
    s.set_stack_base(IDLE_TASK_INDEX, 0x2000_0004);
    assert_eq!(s.spawn(0x100), Ok(TaskId(0)));
    assert_eq!(s.start(), Some(0));
    assert_eq!(s.block_current(TaskWaitKind::Sleep, None), Reschedule::Stay);
    assert_eq!(s.task_state(TaskId(0)), Some(TaskState::Running));
    assert_eq!(s.task_wait_kind(TaskId(0)), Some(TaskWaitKind::NotWaiting));
}

#[test]
fn only_user_task_blocks_to_idle() {
    let mut s = kernel();
    assert_eq!(s.spawn(0x100), Ok(TaskId(0)));
    assert_eq!(s.start(), Some(0));
    // The only user task outranks idle, yet blocking hands the processor on.
    assert_eq!(s.block_current(TaskWaitKind::Sleep, None), Reschedule::Block(Switch { from: 0, to: IDLE_TASK_INDEX }));
    assert_eq!(s.task_state(TaskId(0)), Some(TaskState::Blocked));
    assert_eq!(s.task_wait_kind(TaskId(0)), Some(TaskWaitKind::Sleep));
    // Idle blocking with nothing else runnable keeps running.
    assert_eq!(s.block_current(TaskWaitKind::Semaphore, None), Reschedule::Stay);
    assert_eq!(s.current_task_id(), Some(TaskId(IDLE_TASK_INDEX)));
    assert_eq!(s.task_state(TaskId(IDLE_TASK_INDEX)), Some(TaskState::Running));
}

#[test]
fn top_priority_sleeper_blocks_until_its_deadline() {
    let mut s = kernel();
    assert_eq!(s.spawn(0x100), Ok(TaskId(0)));
    assert_eq!(s.spawn_with_priority(0x200, 5), Ok(TaskId(1)));
    assert_eq!(s.start(), Some(1));
    assert_eq!(sleep_ticks(&mut s, 4), Reschedule::Block(Switch { from: 1, to: 0 }));
    for _ in 0..3 {
        on_systick(&mut s);
        assert_eq!(s.task_state(TaskId(1)), Some(TaskState::Blocked));
        assert_eq!(s.current_task_id(), Some(TaskId(0)));
    }
    on_systick(&mut s);
    assert_eq!(tick_count(&s), 4);
    assert_eq!(s.task_state(TaskId(1)), Some(TaskState::Ready));
    assert_eq!(s.yield_if_higher_priority_ready(), Reschedule::Yield(Switch { from: 0, to: 1 }));
    assert_eq!(s.resume_blocked(), TaskWakeReason::Timeout);
}

#[test]
fn sleep_wakes_on_deadline() {
    let mut s = started_with_two_tasks();
    assert_eq!(sleep_ticks(&mut s, 3), Reschedule::Block(Switch { from: 0, to: 1 }));
    assert_eq!(s.task_wait_kind(TaskId(0)), Some(TaskWaitKind::Sleep));
    assert_eq!(s.next_sleep_deadline(), Some(Deadline::at_tick(3)));
    assert!(!s.blocked_tasks_have_no_deadlines());
    on_systick(&mut s);
    on_systick(&mut s);
    assert_eq!(s.task_state(TaskId(0)), Some(TaskState::Blocked));
    on_systick(&mut s);
    assert_eq!(s.task_state(TaskId(0)), Some(TaskState::Ready));
    assert_eq!(s.next_sleep_deadline(), None);
    assert_eq!(s.yield_now(), Reschedule::Yield(Switch { from: 1, to: 0 }));
    assert_eq!(s.resume_blocked(), TaskWakeReason::Timeout);
}

#[test]
fn zero_sleep_only_yields() {
    let mut s = started_with_two_tasks();
    assert_eq!(sleep_ticks(&mut s, 0), Reschedule::Yield(Switch { from: 0, to: 1 }));
    let past = Deadline::at_tick(0);
    assert_eq!(s.sleep_until(past), Reschedule::Yield(Switch { from: 1, to: 0 }));
}

#[test]
fn idle_switches_at_once_when_sleeper_wakes() {
    let mut s = started_with_two_tasks();
    let d = deadline_after_ticks(&s, 2);
    assert_eq!(s.sleep_until(d), Reschedule::Block(Switch { from: 0, to: 1 }));
    assert_eq!(s.block_current(TaskWaitKind::Semaphore, None), Reschedule::Block(Switch { from: 1, to: IDLE_TASK_INDEX }));
    assert!(s.only_idle_runnable());
    assert_eq!(on_systick(&mut s).switch, None);
    assert_eq!(on_systick(&mut s).switch, Some(Switch { from: IDLE_TASK_INDEX, to: 0 }));
}

#[test]
fn nearest_deadline_is_chosen() {
    let mut s = started_with_two_tasks();
    assert_eq!(sleep_ticks(&mut s, 50), Reschedule::Block(Switch { from: 0, to: 1 }));
    assert!(s.set_task_effective_priority(TaskId(1), 0));
    assert_eq!(sleep_ticks(&mut s, 20), Reschedule::Block(Switch { from: 1, to: IDLE_TASK_INDEX }));
    assert_eq!(s.next_sleep_deadline(), Some(Deadline::at_tick(20)));
    assert!(s.only_idle_runnable());
    assert!(!s.blocked_tasks_have_no_deadlines());
}

#[test]
fn task_queries() {
    let s = started_with_two_tasks();
    assert_eq!(s.task_stack_capacity_words(TaskId(0)), Some(256));
    assert_eq!(s.task_stack_capacity_words(TaskId(3)), None);
    assert_eq!(s.task_stack_overflowed(TaskId(0)), Some(false));
    assert_eq!(s.task_stack_used_words(TaskId(0)), Some(3));
    assert_eq!(s.task_stack_used_words(TaskId(4)), None);
    assert!(is_idle_task(IDLE_TASK_INDEX));
    assert!(!is_idle_task(0));
    assert!(!s.only_idle_runnable());
}

fn running_count(s: &Scheduler) -> usize {
    (0..MAX_TASKS)
        .filter(|i| s.task_state(TaskId(*i)) == Some(TaskState::Running))
        .count()
}

#[test]
fn exactly_one_task_runs_through_operations() {
    let mut s = started_with_two_tasks();
    assert_eq!(running_count(&s), 1);
    s.yield_now();
    assert_eq!(running_count(&s), 1);
    assert_eq!(s.current_task_id(), Some(TaskId(1)));
    sleep_ticks(&mut s, 2);
    assert_eq!(running_count(&s), 1);
    assert_eq!(s.current_task_id(), Some(TaskId(0)));
    for _ in 0..12 {
        on_systick(&mut s);
        assert_eq!(running_count(&s), 1);
    }
    let current = s.current_task_id().expect("a task runs");
    assert_eq!(s.task_state(current), Some(TaskState::Running));
}

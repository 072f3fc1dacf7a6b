use lib::task::{TaskControlBlock, TaskId, TaskInitError, TaskState, TaskWaitKind, TaskWakeReason, INITIAL_XPSR};

#[test]
fn new_task_is_dormant_and_clear() {
    let tcb = TaskControlBlock::<32>::new(TaskId(4));
    assert_eq!(tcb.id(), TaskId(4));
    assert_eq!(tcb.state(), TaskState::Dormant);
    assert_eq!(tcb.entry(), None);
    assert_eq!(tcb.saved_psp(), 0);
    assert_eq!(tcb.stack_len_words(), 32);
    assert_eq!(tcb.stack_used_words(), 0);
    assert!(!tcb.stack_overflowed());
}

#[test]
fn prepare_builds_initial_frame() {
    let mut tcb = TaskControlBlock::<32>::new(TaskId(0));
    tcb.set_stack_base(0x2000_0000);
    assert_eq!(tcb.prepare(0x0800_0101, 0x0800_0201), Ok(()));
    assert_eq!(tcb.state(), TaskState::Ready);
    assert_eq!(tcb.base_priority(), 1);
    assert_eq!(tcb.effective_priority(), 1);
    assert_eq!(tcb.entry(), Some(0x0800_0101));
    assert_eq!(tcb.saved_psp(), 0x2000_0000 + 4 * 16);
    let stack = tcb.stack_words();
    assert_eq!(stack[29], 0x0800_0201);
    assert_eq!(stack[30], 0x0800_0101);
    assert_eq!(stack[31], INITIAL_XPSR);
    assert_eq!(stack[16], 0);
    assert_eq!(tcb.stack_used_words(), 3);
    assert_eq!(tcb.stack_low_addr(), 0x2000_0000);
    assert_eq!(tcb.stack_high_addr(), 0x2000_0000 + 4 * 32);
}

#[test]
fn prepare_rejects_small_stack() {
    let mut tcb = TaskControlBlock::<8>::new(TaskId(1));
    assert_eq!(tcb.prepare(1, 2), Err(TaskInitError::StackTooSmall));
    assert_eq!(tcb.state(), TaskState::Dormant);
    assert_eq!(tcb.entry(), None);
}

#[test]
fn prepare_rejects_misaligned_stack() {
    let mut tcb = TaskControlBlock::<32>::new(TaskId(1));
    tcb.set_stack_base(0x2000_0004);
    assert_eq!(tcb.prepare(0x11, 0x21), Err(TaskInitError::MisalignedStack));
    assert_eq!(tcb.state(), TaskState::Dormant);
    assert_eq!(tcb.entry(), Some(0x11));
    assert_eq!(tcb.saved_psp(), 0);
    assert_eq!(tcb.stack_words()[30], 0x11);
}

#[test]
fn stack_watermark_and_overflow() {
    let mut tcb = TaskControlBlock::<16>::new(TaskId(0));
    tcb.stack_words_mut()[10] = 0xdead;
    assert_eq!(tcb.stack_used_words(), 6);
    assert!(!tcb.stack_overflowed());
    tcb.stack_words_mut()[0] = 1;
    assert!(tcb.stack_overflowed());
    assert_eq!(tcb.stack_used_words(), 16);
    tcb.reset_runtime_state();
    assert_eq!(tcb.stack_used_words(), 0);
}

#[test]
fn setters_and_getters() {
    let mut tcb = TaskControlBlock::<16>::new(TaskId(2));
    tcb.set_state(TaskState::Blocked);
    tcb.set_wait_kind(TaskWaitKind::Mutex);
    tcb.set_wake_reason(TaskWakeReason::Timeout);
    tcb.set_base_priority(4);
    tcb.set_effective_priority(6);
    tcb.set_saved_psp(0x40);
    tcb.set_entry(0x99);
    tcb.set_wake_deadline(Some(lib::timer::Deadline::at_tick(3)));
    assert_eq!(tcb.state(), TaskState::Blocked);
    assert_eq!(tcb.wait_kind(), TaskWaitKind::Mutex);
    assert_eq!(tcb.wake_reason(), TaskWakeReason::Timeout);
    assert_eq!(tcb.base_priority(), 4);
    assert_eq!(tcb.effective_priority(), 6);
    assert_eq!(tcb.saved_psp(), 0x40);
    assert_eq!(tcb.entry(), Some(0x99));
    assert_eq!(tcb.wake_deadline(), Some(lib::timer::Deadline::at_tick(3)));
    tcb.clear_entry();
    assert_eq!(tcb.entry(), None);
}

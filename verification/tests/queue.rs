use lib::queue::MessageQueue;
use lib::scheduler::{Scheduler, Switch, WaitStep, MAX_TASKS};
use lib::task::{TaskId, TaskState, TaskWakeReason};
use lib::timer::{deadline_after_ticks, on_systick, Deadline};

fn two_tasks() -> Scheduler {
    let mut s = Scheduler::new(0x0800_0001, 0x0800_0003);
    for i in 0..MAX_TASKS {
        s.set_stack_base(i, 0x2000_0000 + (i as u32) * 0x1000);
    }
    assert_eq!(s.spawn(0x100), Ok(TaskId(0)));
    assert_eq!(s.spawn(0x200), Ok(TaskId(1)));
    assert_eq!(s.start(), Some(0));
    s
}

#[test]
fn queue_is_fifo_and_bounded() {
    let mut s = two_tasks();
    let mut q = MessageQueue::<u32, 2>::new();
    assert_eq!(q.try_send(&mut s, 1), Ok(()));
    assert_eq!(q.try_send(&mut s, 2), Ok(()));
    assert_eq!(q.try_send(&mut s, 3), Err(3));
    assert_eq!(q.try_receive(&mut s), Some(1));
    assert_eq!(q.try_send(&mut s, 3), Ok(()));
    assert_eq!(q.try_receive(&mut s), Some(2));
    assert_eq!(q.try_receive(&mut s), Some(3));
    assert_eq!(q.try_receive(&mut s), None);
}

#[test]
fn send_wakes_blocked_receiver() {
    let mut s = two_tasks();
    let mut q = MessageQueue::<u32, 2>::new();
    let step = q.receive(&mut s);
    assert!(matches!(step, WaitStep::Switch(sw, ()) if sw == Switch { from: 0, to: 1 }));
    assert_eq!(q.try_send(&mut s, 9), Ok(()));
    assert_eq!(s.task_state(TaskId(0)), Some(TaskState::Ready));
    s.yield_now();
    let reason = s.resume_blocked();
    assert_eq!(reason, TaskWakeReason::Queue);
    assert!(matches!(q.receive_resume(&mut s, reason), WaitStep::Done(9)));
}

#[test]
fn receive_wakes_blocked_sender_which_keeps_its_message() {
    let mut s = two_tasks();
    let mut q = MessageQueue::<u32, 1>::new();
    assert!(matches!(q.send(&mut s, 1), WaitStep::Done(())));
    let step = q.send(&mut s, 2);
    let kept = match step {
        WaitStep::Switch(sw, v) => {
            assert_eq!(sw, Switch { from: 0, to: 1 });
            v
        }
        _ => panic!("sender should block"),
    };
    assert_eq!(kept, 2);
    assert_eq!(q.try_receive(&mut s), Some(1));
    assert_eq!(s.task_state(TaskId(0)), Some(TaskState::Ready));
    s.yield_now();
    let reason = s.resume_blocked();
    assert!(matches!(q.send_resume(&mut s, kept, reason), WaitStep::Done(())));
    assert_eq!(q.try_receive(&mut s), Some(2));
}

#[test]
fn timed_queue_operations() {
    let mut s = two_tasks();
    let mut q = MessageQueue::<u32, 1>::new();
    assert!(matches!(q.receive_until(&mut s, Deadline::at_tick(0)), WaitStep::Done(None)));
    assert!(matches!(q.send_until(&mut s, Deadline::at_tick(0), 4), WaitStep::Done(Ok(()))));
    assert!(matches!(q.send_until(&mut s, Deadline::at_tick(0), 5), WaitStep::Done(Err(5))));
    let d = deadline_after_ticks(&s, 1);
    let step = q.send_until(&mut s, d, 6);
    assert!(matches!(step, WaitStep::Switch(_, 6)));
    on_systick(&mut s);
    s.yield_now();
    let reason = s.resume_blocked();
    assert_eq!(reason, TaskWakeReason::Timeout);
    assert!(matches!(q.send_until_resume(&mut s, d, 6, reason), WaitStep::Done(Err(6))));
    assert!(matches!(q.receive_until(&mut s, d), WaitStep::Done(Some(4))));
    let d2 = deadline_after_ticks(&s, 1);
    assert!(matches!(q.receive_until(&mut s, d2), WaitStep::Switch(_, ())));
    on_systick(&mut s);
    s.yield_now();
    let reason = s.resume_blocked();
    assert!(matches!(q.receive_until_resume(&mut s, d2, reason), WaitStep::Done(None)));
}

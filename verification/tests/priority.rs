use lib::priority::{recompute_task_priority, update_mutex_owner, MutexPriorityEntry, MutexPriorityTable};
use lib::scheduler::{Scheduler, MAX_TASKS};
use lib::task::TaskId;

fn two_tasks() -> Scheduler {
    let mut s = Scheduler::new(0x0800_0001, 0x0800_0003);
    for i in 0..MAX_TASKS {
        s.set_stack_base(i, 0x2000_0000 + (i as u32) * 0x1000);
    }
    assert_eq!(s.spawn(0x100), Ok(TaskId(0)));
    assert_eq!(s.spawn_with_priority(0x200, 2), Ok(TaskId(1)));
    s
}

#[test]
fn owner_inherits_highest_waiter_priority() {
    let mut s = two_tasks();
    let mut table = MutexPriorityTable::new();
    update_mutex_owner(&mut table, 0x1000, Some(TaskId(0)), 5);
    update_mutex_owner(&mut table, 0x2000, Some(TaskId(0)), 3);
    recompute_task_priority(&table, &mut s, TaskId(0));
    assert_eq!(s.task_effective_priority(TaskId(0)), Some(5));
    update_mutex_owner(&mut table, 0x1000, None, 0);
    recompute_task_priority(&table, &mut s, TaskId(0));
    assert_eq!(s.task_effective_priority(TaskId(0)), Some(3));
    update_mutex_owner(&mut table, 0x2000, Some(TaskId(1)), 1);
    recompute_task_priority(&table, &mut s, TaskId(0));
    assert_eq!(s.task_effective_priority(TaskId(0)), Some(1));
    recompute_task_priority(&table, &mut s, TaskId(1));
    assert_eq!(s.task_effective_priority(TaskId(1)), Some(2));
    recompute_task_priority(&table, &mut s, TaskId(8));
}

#[test]
fn full_table_ignores_new_mutex() {
    let mut s = two_tasks();
    let mut table = MutexPriorityTable::new();
    update_mutex_owner(&mut table, 0x1000, Some(TaskId(1)), 4);
    update_mutex_owner(&mut table, 0x2000, Some(TaskId(1)), 4);
    update_mutex_owner(&mut table, 0x3000, Some(TaskId(1)), 9);
    recompute_task_priority(&table, &mut s, TaskId(1));
    assert_eq!(s.task_effective_priority(TaskId(1)), Some(4));
    let e = MutexPriorityEntry::empty();
    assert_eq!(e.mutex, 0);
    assert_eq!(e.owner, None);
    assert_eq!(e.inherited_priority, 0);
}

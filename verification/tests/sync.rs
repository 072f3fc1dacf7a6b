use lib::sync::CriticalNesting;

#[test]
fn only_outermost_exit_restores_mask() {
    let mut n = CriticalNesting::new();
    n.enter(1);
    n.enter(0);
    assert_eq!(n.exit(), None);
    assert_eq!(n.exit(), Some(1));
    n.enter(0);
    assert_eq!(n.exit(), Some(0));
}

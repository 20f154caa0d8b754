use atm0s_sdn_network::san_io_utils::TasksSwitcher;

#[test]
fn loop_style() {
    let mut tasks = TasksSwitcher::<u8, 3>::default();
    tasks.push_all();

    assert_eq!(tasks.current(), Some(0));
    assert_eq!(tasks.process(Some(1)), Some(1));
    assert_eq!(tasks.current(), Some(0));

    assert_eq!(tasks.process::<u8>(None), None);
    assert_eq!(tasks.current(), Some(1));

    assert_eq!(tasks.process::<u8>(None), None);
    assert_eq!(tasks.current(), Some(2));

    assert_eq!(tasks.process::<u8>(None), None);
    assert_eq!(tasks.current(), None);
    assert_eq!(tasks.current(), None);
}

#[test]
fn stack_style() {
    let mut tasks = TasksSwitcher::<u8, 3>::default();

    tasks.push_last(2);
    tasks.push_last(0);

    assert_eq!(tasks.current(), Some(0));
    assert_eq!(tasks.process(Some(1)), Some(1));
    assert_eq!(tasks.current(), Some(0));

    assert_eq!(tasks.process::<u8>(None), None);
    assert_eq!(tasks.current(), Some(2));

    assert_eq!(tasks.process::<u8>(None), None);
    assert_eq!(tasks.current(), None);
    assert_eq!(tasks.current(), None);
}

#[test]
fn push_last_ignores_waiting_group() {
    let mut tasks = TasksSwitcher::<u16, 4>::default();
    tasks.push_last(1);
    tasks.push_last(3);
    tasks.push_last(1);
    assert_eq!(tasks.current(), Some(3));
    tasks.process::<()>(None);
    assert_eq!(tasks.current(), Some(1));
    tasks.process::<()>(None);
    assert_eq!(tasks.current(), None);
    assert_eq!(tasks.process::<()>(None), None);
}

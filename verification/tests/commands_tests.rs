use kk_keymap::commands::KCommand;

#[test]
fn command_names_and_docs() {
    assert_eq!(KCommand::escape().name(), "escape");
    assert_eq!(KCommand::escape().doc(), "Escape from current mode");
    assert_eq!(KCommand::nop().name(), "nop");
    assert_eq!(KCommand::nop().doc(), "Does Nothing");
    assert_eq!(KCommand::error().name(), "error");
    assert_eq!(KCommand::error().doc(), "Just an error");
}

#[test]
fn the_catalogue_lists_every_command_once() {
    let list = KCommand::static_command_list();
    assert_eq!(list.len(), 3);
    assert_eq!(list[0].name(), "escape");
    assert_eq!(list[1].name(), "nop");
    assert_eq!(list[2].name(), "error");
}

#[test]
fn exec_succeeds_except_for_the_failing_command() {
    assert!(KCommand::escape().exec().is_ok());
    assert!(KCommand::nop().exec().is_ok());
    let failed = KCommand::error().exec();
    assert_eq!(failed, Err(String::from("Just an error")));
}

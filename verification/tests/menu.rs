use subtitle_renamer::menu::{
    parse_directory, parse_menu_choice, MenuAction, MenuChoice, MenuState, Operation,
};

#[test]
fn the_four_choices_are_read() {
    assert_eq!(parse_menu_choice("1"), MenuChoice::Run(Operation::Scan));
    assert_eq!(parse_menu_choice("2"), MenuChoice::Run(Operation::Rename));
    assert_eq!(parse_menu_choice("3"), MenuChoice::Run(Operation::Simulate));
    assert_eq!(parse_menu_choice("4"), MenuChoice::Quit);
}

#[test]
fn white_space_around_a_choice_is_set_aside() {
    assert_eq!(parse_menu_choice("2\n"), MenuChoice::Run(Operation::Rename));
    assert_eq!(parse_menu_choice("  4 \r\n"), MenuChoice::Quit);
    assert_eq!(parse_menu_choice("\t1\u{3000}"), MenuChoice::Run(Operation::Scan));
}

#[test]
fn anything_else_is_invalid() {
    assert_eq!(parse_menu_choice(""), MenuChoice::Invalid);
    assert_eq!(parse_menu_choice("\n"), MenuChoice::Invalid);
    assert_eq!(parse_menu_choice("5"), MenuChoice::Invalid);
    assert_eq!(parse_menu_choice("12"), MenuChoice::Invalid);
    assert_eq!(parse_menu_choice("1 2"), MenuChoice::Invalid);
    assert_eq!(parse_menu_choice("quit"), MenuChoice::Invalid);
}

#[test]
fn a_directory_is_read_without_the_white_space_around_it() {
    assert_eq!(parse_directory("/srv/media\n"), "/srv/media");
    assert_eq!(parse_directory("  my films \r\n"), "my films");
    assert_eq!(parse_directory("\n"), "");
    assert_eq!(parse_directory("   "), "");
}

#[test]
fn an_operation_asks_for_its_directory_and_is_performed() {
    let state = MenuState::new();
    assert_eq!(state, MenuState::Choosing);
    let (state, action) = state.step("3\n");
    assert_eq!(state, MenuState::AskingDirectory(Operation::Simulate));
    assert!(matches!(action, MenuAction::AskDirectory));
    let (state, action) = state.step(" /remote/films \n");
    assert_eq!(state, MenuState::Choosing);
    match action {
        MenuAction::Perform { operation, directory } => {
            assert_eq!(operation, Operation::Simulate);
            assert_eq!(directory, "/remote/films");
        },
        other => panic!("{:?}", other),
    }
}

#[test]
fn a_directory_that_reads_like_a_choice_is_a_directory() {
    let (state, _) = MenuState::Choosing.step("1");
    let (state, action) = state.step("4");
    assert_eq!(state, MenuState::Choosing);
    match action {
        MenuAction::Perform { operation, directory } => {
            assert_eq!(operation, Operation::Scan);
            assert_eq!(directory, "4");
        },
        other => panic!("{:?}", other),
    }
}

#[test]
fn an_invalid_answer_shows_the_menu_again() {
    let (state, action) = MenuState::Choosing.step("nine");
    assert_eq!(state, MenuState::Choosing);
    assert!(matches!(action, MenuAction::Reject));
}

#[test]
fn quitting_ends_the_dialogue() {
    let (state, action) = MenuState::Choosing.step("4\n");
    assert_eq!(state, MenuState::Finished);
    assert!(matches!(action, MenuAction::Leave));
    let (state, action) = state.step("1\n");
    assert_eq!(state, MenuState::Finished);
    assert!(matches!(action, MenuAction::Leave));
}

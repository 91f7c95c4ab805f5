//! The interactive menu of a remote session, as a state machine: the caller
//! reads the lines and does the work, the machine says what each line means.

use vstd::prelude::*;
use crate::text::{chars_of, range_reads, trim_bounds, trimmed};

verus! {

/// What the operator can ask for on a directory.
#[derive(Clone, Copy, Debug, PartialEq, Eq, Structural)]
pub enum Operation {
    /// List the subtitles and videos of the directory.
    Scan,
    /// Rename the subtitles of the directory.
    Rename,
    /// Show the renames without performing them.
    Simulate,
}

/// What one answer to the menu selects.
#[derive(Clone, Copy, Debug, PartialEq, Eq, Structural)]
pub enum MenuChoice {
    Run(Operation),
    Quit,
    Invalid,
}

/// Where the dialogue stands.
#[derive(Clone, Copy, Debug, PartialEq, Eq, Structural)]
pub enum MenuState {
    /// The menu was shown and an answer is awaited.
    Choosing,
    /// An operation was chosen and its directory is awaited.
    AskingDirectory(Operation),
    /// The operator has quit.
    Finished,
}

/// What the caller does after a line was read.
#[derive(Debug)]
pub enum MenuAction {
    /// Ask for the directory of the chosen operation.
    AskDirectory,
    /// Carry out `operation` on `directory`, then show the menu again.
    Perform { operation: Operation, directory: String },
    /// Tell the operator that the answer was none of the choices, then show
    /// the menu again.
    Reject,
    /// Say goodbye and stop reading.
    Leave,
}

/// The choice that an answer stands for, white space around it set aside:
/// `1` scans, `2` renames, `3` simulates, `4` quits.
pub open spec fn menu_choice(line: Seq<char>) -> MenuChoice {
    let answer = trimmed(line);
    if answer == "1"@ {
        MenuChoice::Run(Operation::Scan)
    } else if answer == "2"@ {
        MenuChoice::Run(Operation::Rename)
    } else if answer == "3"@ {
        MenuChoice::Run(Operation::Simulate)
    } else if answer == "4"@ {
        MenuChoice::Quit
    } else {
        MenuChoice::Invalid
    }
}

/// The state that follows `state` once `line` was read.
pub open spec fn next_state(state: MenuState, line: Seq<char>) -> MenuState {
    match state {
        MenuState::Choosing => match menu_choice(line) {
            MenuChoice::Run(operation) => MenuState::AskingDirectory(operation),
            MenuChoice::Quit => MenuState::Finished,
            MenuChoice::Invalid => MenuState::Choosing,
        },
        MenuState::AskingDirectory(_) => MenuState::Choosing,
        MenuState::Finished => MenuState::Finished,
    }
}

/// Whether `action` is what the caller owes after `line` was read in `state`.
pub open spec fn action_answers(state: MenuState, line: Seq<char>, action: MenuAction) -> bool {
    match state {
        MenuState::Choosing => match menu_choice(line) {
            MenuChoice::Run(_) => action is AskDirectory,
            MenuChoice::Quit => action is Leave,
            MenuChoice::Invalid => action is Reject,
        },
        MenuState::AskingDirectory(chosen) => action matches MenuAction::Perform {
            operation,
            directory,
        } && operation == chosen && directory@ == trimmed(line),
        MenuState::Finished => action is Leave,
    }
}

/// Reads an answer to the menu.
pub fn parse_menu_choice(line: &str) -> (choice: MenuChoice)
    ensures
        choice == menu_choice(line@),
{
    let chars = chars_of(line);
    let (from, to) = trim_bounds(&chars, 0, chars.len());
    assert(chars@.subrange(0, chars.len() as int) == line@);
    if range_reads(&chars, from, to, "1") {
        MenuChoice::Run(Operation::Scan)
    } else if range_reads(&chars, from, to, "2") {
        MenuChoice::Run(Operation::Rename)
    } else if range_reads(&chars, from, to, "3") {
        MenuChoice::Run(Operation::Simulate)
    } else if range_reads(&chars, from, to, "4") {
        MenuChoice::Quit
    } else {
        MenuChoice::Invalid
    }
}

/// Reads a directory as the operator typed it, without the white space
/// around it.
pub fn parse_directory(line: &str) -> (directory: String)
    ensures
        directory@ == trimmed(line@),
{
    let chars = chars_of(line);
    let (from, to) = trim_bounds(&chars, 0, chars.len());
    assert(chars@.subrange(0, chars.len() as int) == line@);
    String::from_str(line.substring_char(from, to))
}

impl MenuState {
    /// Where every dialogue starts.
    pub fn new() -> (state: MenuState)
        ensures
            state == MenuState::Choosing,
    {
        MenuState::Choosing
    }

    /// Takes the line that the operator typed and says where the dialogue
    /// goes and what the caller does now.
    pub fn step(self, line: &str) -> (next: (MenuState, MenuAction))
        ensures
            next.0 == next_state(self, line@),
            action_answers(self, line@, next.1),
    {
        match self {
            MenuState::Choosing => match parse_menu_choice(line) {
                MenuChoice::Run(operation) => (
                    MenuState::AskingDirectory(operation),
                    MenuAction::AskDirectory,
                ),
                MenuChoice::Quit => (MenuState::Finished, MenuAction::Leave),
                MenuChoice::Invalid => (MenuState::Choosing, MenuAction::Reject),
            },
            MenuState::AskingDirectory(operation) => (
                MenuState::Choosing,
                MenuAction::Perform { operation, directory: parse_directory(line) },
            ),
            MenuState::Finished => (MenuState::Finished, MenuAction::Leave),
        }
    }
}

} // verus!

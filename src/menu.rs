//! The numbered command menu and the choice of what a selection does.
use vstd::prelude::*;
use vstd::string::StringExecFns;

verus! {

/// How many commands the menu offers; selections run from 0 below it.
pub const COMMAND_COUNT: usize = 3;

/// What a valid selection asks for.
#[derive(Clone, Copy, Debug, PartialEq, Eq, Structural)]
pub enum Action {
    Exit,
    ShowUser,
    ConfigureUser,
}

/// Why a selection was refused. Either way the menu is shown again.
#[derive(Clone, Copy, Debug, PartialEq, Eq, Structural)]
pub enum MenuError {
    /// The input was not an integer, or could not be read.
    Unreadable,
    /// The integer is not the number of a command.
    InvalidCommand,
}

/// The label of command `i`.
pub open spec fn label_text(i: int) -> Seq<char> {
    if i == 0 {
        "Exit"@
    } else if i == 1 {
        "Show Current User"@
    } else {
        "Configure User (local)"@
    }
}

/// The action of command `i`.
pub open spec fn action_of(i: int) -> Action {
    if i == 0 {
        Action::Exit
    } else if i == 1 {
        Action::ShowUser
    } else {
        Action::ConfigureUser
    }
}

/// The number of command `i`, as text.
pub open spec fn digit_text(i: int) -> Seq<char> {
    if i == 0 {
        "0"@
    } else if i == 1 {
        "1"@
    } else {
        "2"@
    }
}

/// The menu lines of the first `n` commands, `<i>. <label>` each.
pub open spec fn command_lines(n: int) -> Seq<char>
    decreases n,
{
    if n <= 0 {
        seq![]
    } else {
        command_lines(n - 1) + digit_text(n - 1) + ". "@ + label_text(n - 1) + "\n"@
    }
}

/// The whole menu and its prompt.
pub open spec fn menu_spec() -> Seq<char> {
    "*---*\nGit-User :3\n"@ + command_lines(COMMAND_COUNT as int) + "*---*\n> "@
}

/// The outcome of one selection: the integer read, or `None` where no integer
/// could be read.
pub open spec fn selection_outcome(input: Option<i32>) -> Result<Action, MenuError> {
    match input {
        None => Err(MenuError::Unreadable),
        Some(n) => if 0 <= n < COMMAND_COUNT {
            Ok(action_of(n as int))
        } else {
            Err(MenuError::InvalidCommand)
        },
    }
}

/// Whether the outcome of a selection ends the menu loop by itself: only
/// Exit does. A Show or Configure step that fails ends it afterwards; see
/// `session`.
pub open spec fn ends_loop(outcome: Result<Action, MenuError>) -> bool {
    outcome == Ok::<Action, MenuError>(Action::Exit)
}

/// Every command number below `COMMAND_COUNT` selects its own action, and
/// distinct numbers select distinct actions.
pub proof fn lemma_valid_selection_dispatches(n: i32, m: i32)
    requires
        0 <= n < COMMAND_COUNT,
        0 <= m < COMMAND_COUNT,
    ensures
        selection_outcome(Some(n)) == Ok::<Action, MenuError>(action_of(n as int)),
        n != m ==> action_of(n as int) != action_of(m as int),
{
}

/// Input that is not an integer is reported as unreadable, and the menu
/// loop goes on.
pub proof fn lemma_unreadable_input_continues()
    ensures
        selection_outcome(None) == Err::<Action, MenuError>(MenuError::Unreadable),
        !ends_loop(selection_outcome(None)),
{
}

/// A number outside the menu is reported as an invalid command, selects no
/// action, and the menu loop goes on.
pub proof fn lemma_out_of_range_rejected(n: i32)
    requires
        n < 0 || n >= COMMAND_COUNT,
    ensures
        selection_outcome(Some(n)) == Err::<Action, MenuError>(MenuError::InvalidCommand),
        !ends_loop(selection_outcome(Some(n))),
{
}

impl MenuError {
    /// The message reported for the error.
    pub fn message(&self) -> (r: &'static str)
        ensures
            *self == MenuError::Unreadable ==> r@ == "Wow"@,
            *self == MenuError::InvalidCommand ==> r@ == "Invalid Command"@,
    {
        match self {
            MenuError::Unreadable => "Wow",
            MenuError::InvalidCommand => "Invalid Command",
        }
    }
}

/// The label of command `i`.
pub fn command_label(i: usize) -> (r: &'static str)
    requires
        i < COMMAND_COUNT,
    ensures
        r@ == label_text(i as int),
{
    if i == 0 {
        "Exit"
    } else if i == 1 {
        "Show Current User"
    } else {
        "Configure User (local)"
    }
}

fn command_number(i: usize) -> (r: &'static str)
    requires
        i < COMMAND_COUNT,
    ensures
        r@ == digit_text(i as int),
{
    if i == 0 {
        "0"
    } else if i == 1 {
        "1"
    } else {
        "2"
    }
}

/// The menu as shown before each selection, ending with the prompt.
pub fn menu_text() -> (r: String)
    ensures
        r@ == menu_spec(),
{
    let mut s = String::from_str("*---*\nGit-User :3\n");
    let ghost head = s@;
    let mut i: usize = 0;
    while i < COMMAND_COUNT
        invariant
            i <= COMMAND_COUNT,
            head == "*---*\nGit-User :3\n"@,
            s@ == head + command_lines(i as int),
        decreases COMMAND_COUNT - i,
    {
        s.append(command_number(i));
        s.append(". ");
        s.append(command_label(i));
        s.append("\n");
        assert(s@ =~= head + command_lines(i + 1));
        i = i + 1;
    }
    s.append("*---*\n> ");
    s
}

/// What a selection asks for: the action of a command number below
/// `COMMAND_COUNT`, else the error to report before the menu is shown again.
pub fn handle_input(input: Option<i32>) -> (r: Result<Action, MenuError>)
    ensures
        r == selection_outcome(input),
{
    match input {
        None => Err(MenuError::Unreadable),
        Some(n) => {
            if n < 0 || n >= COMMAND_COUNT as i32 {
                Err(MenuError::InvalidCommand)
            } else if n == 0 {
                Ok(Action::Exit)
            } else if n == 1 {
                Ok(Action::ShowUser)
            } else {
                Ok(Action::ConfigureUser)
            }
        },
    }
}

} // verus!

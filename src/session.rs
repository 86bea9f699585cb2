//! What the menu loop does after each step: print a text and prompt again,
//! or print a text and stop.
use vstd::prelude::*;
use vstd::string::StringExecFns;
use crate::identity::{GitUserData, display_text};
use crate::menu::MenuError;

verus! {

/// What the menu loop does next.
#[derive(Debug, PartialEq, Eq)]
pub enum Next {
    /// Print the text, then show the menu again.
    Prompt(String),
    /// Print the text, then stop.
    Stop(String),
    /// Stop without printing.
    Exit,
}

/// `r` prints `t` and shows the menu again.
pub open spec fn prompts(r: Next, t: Seq<char>) -> bool {
    r matches Next::Prompt(s) && s@ == t
}

/// `r` prints `t` and stops.
pub open spec fn stops(r: Next, t: Seq<char>) -> bool {
    r matches Next::Stop(s) && s@ == t
}

/// The warning printed beside an identity whose signing is off.
pub open spec fn signing_warning() -> Seq<char> {
    "[Warning] commit.gpgsign != true. Auto-signing is disabled."@
}

/// The text printed for the current identity.
pub open spec fn show_text(d: GitUserData) -> Seq<char> {
    if d.gpgsign@ != "true"@ {
        display_text(d) + "\n"@ + signing_warning()
    } else {
        display_text(d)
    }
}

/// The text printed after an identity was written.
pub open spec fn configured_text(d: GitUserData) -> Seq<char> {
    "Successfully set as current user!\n"@ + display_text(d)
}

/// A refused selection: its message is printed and the menu comes back.
pub fn after_menu_error(e: MenuError) -> (r: Next)
    ensures
        prompts(r, if e == MenuError::Unreadable { "Wow"@ } else { "Invalid Command"@ }),
{
    Next::Prompt(String::from_str(e.message()))
}

/// After the current identity was read: a failed read is printed and ends
/// the loop; otherwise the identity is printed, with a warning where signing
/// is off, and the menu comes back.
pub fn after_show(res: Result<GitUserData, String>) -> (r: Next)
    ensures
        res is Err ==> stops(r, res->Err_0@),
        res is Ok ==> prompts(r, show_text(res->Ok_0)),
{
    match res {
        Err(m) => Next::Stop(m),
        Ok(d) => {
            let mut t = d.to_string();
            if d.signing_disabled() {
                t.append("\n");
                t.append("[Warning] commit.gpgsign != true. Auto-signing is disabled.");
            }
            Next::Prompt(t)
        },
    }
}

/// After the configure step: input that gave no identity ends the loop, as
/// does a failed write; otherwise the written identity is printed and the
/// menu comes back. `written` is looked at only when `input` is `Ok`.
pub fn after_configure(input: &Result<GitUserData, String>, written: &Result<(), String>) -> (r: Next)
    ensures
        input is Err ==> stops(r, "Failed to get user from input"@),
        input is Ok && written is Err ==> stops(r, "Failed to set data as current user"@),
        input is Ok && written is Ok ==> prompts(r, configured_text(input->Ok_0)),
{
    match input {
        Err(_) => Next::Stop(String::from_str("Failed to get user from input")),
        Ok(d) => match written {
            Err(_) => Next::Stop(String::from_str("Failed to set data as current user")),
            Ok(_) => {
                let mut t = String::from_str("Successfully set as current user!\n");
                let shown = d.to_string();
                t.append(shown.as_str());
                Next::Prompt(t)
            },
        },
    }
}

} // verus!

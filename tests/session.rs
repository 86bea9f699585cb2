use git_user::identity::GitUserData;
use git_user::menu::MenuError;
use git_user::session::{after_configure, after_menu_error, after_show, Next};

fn bob(gpgsign: &str) -> GitUserData {
    GitUserData {
        name: "Bob".to_string(),
        email: "bob@example.com".to_string(),
        signingkey: String::new(),
        gpgsign: gpgsign.to_string(),
    }
}

#[test]
fn menu_errors_prompt_again() {
    assert_eq!(after_menu_error(MenuError::Unreadable), Next::Prompt("Wow".to_string()));
    assert_eq!(
        after_menu_error(MenuError::InvalidCommand),
        Next::Prompt("Invalid Command".to_string())
    );
}

#[test]
fn show_failure_stops() {
    let r = after_show(Err("Failed to get user.name due to not found".to_string()));
    assert_eq!(r, Next::Stop("Failed to get user.name due to not found".to_string()));
}

#[test]
fn show_prints_identity_and_warning() {
    let text = "user.name: Bob\nuser.email: bob@example.com\nuser.signingkey: \ncommit.gpgsign: ";
    assert_eq!(after_show(Ok(bob("true"))), Next::Prompt(format!("{}true", text)));
    assert_eq!(
        after_show(Ok(bob("false"))),
        Next::Prompt(format!(
            "{}false\n[Warning] commit.gpgsign != true. Auto-signing is disabled.",
            text
        ))
    );
}

#[test]
fn configure_outcomes() {
    assert_eq!(
        after_configure(&Err("boom".to_string()), &Ok(())),
        Next::Stop("Failed to get user from input".to_string())
    );
    assert_eq!(
        after_configure(&Ok(bob("true")), &Err("spawn".to_string())),
        Next::Stop("Failed to set data as current user".to_string())
    );
    assert_eq!(
        after_configure(&Ok(bob("true")), &Ok(())),
        Next::Prompt(
            "Successfully set as current user!\nuser.name: Bob\nuser.email: bob@example.com\nuser.signingkey: \ncommit.gpgsign: true"
                .to_string()
        )
    );
}

use git_user::bridge::{accept_line, config_value_from_output, spawn_failure_message};
use git_user::identity::ConfigKey;

#[test]
fn output_is_decoded_and_trimmed() {
    let r = config_value_from_output(ConfigKey::UserName, b"  Alice Smith\n".to_vec());
    assert_eq!(r, Ok("Alice Smith".to_string()));
}

#[test]
fn empty_output_reads_as_empty_value() {
    let r = config_value_from_output(ConfigKey::UserSigningKey, Vec::new());
    assert_eq!(r, Ok(String::new()));
}

#[test]
fn non_utf8_output_is_an_error() {
    let r = config_value_from_output(ConfigKey::UserEmail, vec![0xff, 0xfe, b'\n']);
    assert_eq!(r, Err("Failed to convert user.email to utf8".to_string()));
}

#[test]
fn spawn_failure_names_key_and_reason() {
    let m = spawn_failure_message(ConfigKey::CommitGpgSign, "not found");
    assert_eq!(m, "Failed to get commit.gpgsign due to not found");
}

#[test]
fn blank_lines_are_skipped() {
    assert_eq!(accept_line(""), None);
    assert_eq!(accept_line("   \t\n"), None);
    assert_eq!(accept_line("  Bob \n"), Some("Bob".to_string()));
    assert_eq!(accept_line("0\n"), Some("0".to_string()));
}

use git_user::identity::{env_git_user, get_or_default, stdin_git_user, ConfigKey, GitUserData};
use git_user::memory::MemoryConfig;
use git_user::store::ConfigStore;

/// A store that records every call and fails on chosen keys.
struct Recorder {
    inner: MemoryConfig,
    calls: Vec<String>,
    failing_reads: Vec<ConfigKey>,
    failing_writes: Vec<ConfigKey>,
}

impl Recorder {
    fn new() -> Recorder {
        Recorder {
            inner: MemoryConfig::new(),
            calls: Vec::new(),
            failing_reads: Vec::new(),
            failing_writes: Vec::new(),
        }
    }
}

impl ConfigStore for Recorder {
    fn get(&mut self, key: ConfigKey) -> Result<String, String> {
        self.calls.push(format!("Read({})", key.as_str()));
        if self.failing_reads.contains(&key) {
            return Err(format!("cannot read {}", key.as_str()));
        }
        Ok(self.inner.read(key))
    }

    fn set(&mut self, key: ConfigKey, value: &String) -> Result<(), String> {
        self.calls.push(format!("Write({},{})", key.as_str(), value));
        if self.failing_writes.contains(&key) {
            return Err("spawn failed".to_string());
        }
        self.inner.write(key, value);
        Ok(())
    }
}

fn alice() -> GitUserData {
    GitUserData {
        name: "Alice".to_string(),
        email: "alice@example.com".to_string(),
        signingkey: String::new(),
        gpgsign: "true".to_string(),
    }
}

#[test]
fn key_names() {
    assert_eq!(ConfigKey::UserName.as_str(), "user.name");
    assert_eq!(ConfigKey::UserEmail.as_str(), "user.email");
    assert_eq!(ConfigKey::UserSigningKey.as_str(), "user.signingkey");
    assert_eq!(ConfigKey::CommitGpgSign.as_str(), "commit.gpgsign");
}

#[test]
fn show_prints_each_key_on_its_own_line() {
    let mut store = MemoryConfig::new();
    store.store_identity(&alice());
    let d = env_git_user(&mut store).unwrap();
    let text = d.to_string();
    let lines: Vec<&str> = text.lines().collect();
    assert_eq!(lines[0], "user.name: Alice");
    assert_eq!(lines[1], "user.email: alice@example.com");
    assert_eq!(
        text,
        "user.name: Alice\nuser.email: alice@example.com\nuser.signingkey: \ncommit.gpgsign: true"
    );
}

#[test]
fn reads_in_order_and_stop_at_first_failure() {
    let mut s = Recorder::new();
    s.failing_reads = vec![ConfigKey::UserEmail, ConfigKey::CommitGpgSign];
    let r = env_git_user(&mut s);
    assert_eq!(r.unwrap_err(), "cannot read user.email");
    assert_eq!(s.calls, vec!["Read(user.name)", "Read(user.email)"]);
}

#[test]
fn configure_writes_in_order_and_reads_back() {
    let mut s = Recorder::new();
    let d = stdin_git_user("Bob", "bob@example.com", "K1", "true", &mut s).unwrap();
    assert!(s.calls.is_empty());
    assert_eq!(d.set_as_current(&mut s), Ok(()));
    assert_eq!(
        s.calls,
        vec![
            "Write(user.name,Bob)",
            "Write(user.email,bob@example.com)",
            "Write(user.signingkey,K1)",
            "Write(commit.gpgsign,true)",
        ]
    );
    let back = env_git_user(&mut s).unwrap();
    assert_eq!(back.name, "Bob");
    assert_eq!(back.email, "bob@example.com");
}

#[test]
fn write_stops_at_first_failure() {
    let mut s = Recorder::new();
    s.failing_writes = vec![ConfigKey::UserEmail];
    let r = alice().set_as_current(&mut s);
    assert_eq!(r, Err("spawn failed".to_string()));
    assert_eq!(s.calls, vec!["Write(user.name,Alice)", "Write(user.email,alice@example.com)"]);
    assert_eq!(s.inner.read(ConfigKey::UserName), "Alice");
}

#[test]
fn sentinel_reads_current_value() {
    let mut s = Recorder::new();
    s.inner.write(ConfigKey::UserName, &"current".to_string());
    assert_eq!(get_or_default("0", ConfigKey::UserName, &mut s), Ok("current".to_string()));
    assert_eq!(s.calls, vec!["Read(user.name)"]);
    assert_eq!(get_or_default("new", ConfigKey::UserName, &mut s), Ok("new".to_string()));
    assert_eq!(get_or_default("00", ConfigKey::UserName, &mut s), Ok("00".to_string()));
    assert_eq!(s.calls.len(), 1);
}

#[test]
fn sentinel_read_failure_fails_configure() {
    let mut s = Recorder::new();
    s.failing_reads = vec![ConfigKey::UserEmail, ConfigKey::CommitGpgSign];
    let r = stdin_git_user("a", "0", "c", "0", &mut s);
    assert_eq!(r.unwrap_err(), "cannot read user.email");
    assert_eq!(s.calls, vec!["Read(user.email)"]);
    let d = stdin_git_user("a", "b", "c", "false", &mut s).unwrap();
    assert_eq!(d.gpgsign, "false");
}

#[test]
fn signing_warning_unless_true() {
    assert!(!alice().signing_disabled());
    let mut d = alice();
    d.gpgsign = "false".to_string();
    assert!(d.signing_disabled());
    d.gpgsign = String::new();
    assert!(d.signing_disabled());
}

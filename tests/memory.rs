use git_user::identity::{stdin_git_user, ConfigKey, GitUserData};
use git_user::store::ConfigStore;
use git_user::memory::MemoryConfig;

#[test]
fn unset_keys_read_empty() {
    let m = MemoryConfig::new();
    assert_eq!(m.read(ConfigKey::UserName), "");
    assert_eq!(m.read(ConfigKey::CommitGpgSign), "");
}

#[test]
fn later_write_wins() {
    let mut m = MemoryConfig::new();
    m.write(ConfigKey::UserName, &"Alice".to_string());
    m.write(ConfigKey::UserEmail, &"a@x".to_string());
    m.write(ConfigKey::UserName, &"Bob".to_string());
    assert_eq!(m.read(ConfigKey::UserName), "Bob");
    assert_eq!(m.read(ConfigKey::UserEmail), "a@x");
}

#[test]
fn identity_round_trip() {
    let mut m = MemoryConfig::new();
    m.write(ConfigKey::UserName, &"Old".to_string());
    let d = GitUserData {
        name: "Carol".to_string(),
        email: "carol@example.com".to_string(),
        signingkey: "ABC123".to_string(),
        gpgsign: "true".to_string(),
    };
    m.store_identity(&d);
    let back = m.load_identity();
    assert_eq!(back.name, "Carol");
    assert_eq!(back.email, "carol@example.com");
    assert_eq!(back.signingkey, "ABC123");
    assert_eq!(back.gpgsign, "true");
}

#[test]
fn all_sentinels_keep_current_identity() {
    let mut m = MemoryConfig::new();
    let d = GitUserData {
        name: "Dan".to_string(),
        email: "dan@example.com".to_string(),
        signingkey: "K1".to_string(),
        gpgsign: "false".to_string(),
    };
    m.store_identity(&d);
    let r = stdin_git_user("0", "0", "0", "0", &mut m).unwrap();
    assert_eq!(r.name, "Dan");
    assert_eq!(r.email, "dan@example.com");
    assert_eq!(r.signingkey, "K1");
    assert_eq!(r.gpgsign, "false");
    let mixed = stdin_git_user("Eve", "0", "K2", "0", &mut m).unwrap();
    assert_eq!(mixed.name, "Eve");
    assert_eq!(mixed.email, "dan@example.com");
    assert_eq!(mixed.signingkey, "K2");
    assert_eq!(mixed.gpgsign, "false");
}

#[test]
fn storing_twice_changes_nothing() {
    let mut m = MemoryConfig::new();
    let d = GitUserData {
        name: "Fay".to_string(),
        email: "fay@example.com".to_string(),
        signingkey: String::new(),
        gpgsign: "true".to_string(),
    };
    m.store_identity(&d);
    m.store_identity(&d);
    let back = m.load_identity();
    assert_eq!(back.name, "Fay");
    assert_eq!(back.email, "fay@example.com");
    assert_eq!(back.signingkey, "");
}

#[test]
fn memory_store_through_trait() {
    let mut m = MemoryConfig::new();
    assert_eq!(m.set(ConfigKey::UserEmail, &"x@y".to_string()), Ok(()));
    assert_eq!(m.get(ConfigKey::UserEmail), Ok("x@y".to_string()));
    assert_eq!(m.get(ConfigKey::UserName), Ok(String::new()));
}

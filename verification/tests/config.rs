use crabtrap::{Check, Config, ConfigEntry};
use std::collections::BTreeSet;

const WRITE: u32 = 64;
const READ: u32 = 63;
const WRAPPER: &str = "/usr/local/lib/libprintf_wrapper.so";

fn set(calls: &[u32]) -> Option<BTreeSet<u32>> {
    Some(calls.iter().copied().collect())
}

fn policy(allow: Option<BTreeSet<u32>>, block: Option<BTreeSet<u32>>) -> Config {
    let mut config = Config::new();
    config.insert(String::from(WRAPPER), ConfigEntry { allow, block });
    config
}

#[test]
fn empty_policy_knows_nothing() {
    let config = Config::new();
    assert!(config.shared_objects.is_empty());
    assert_eq!(config.check(WRAPPER, WRITE), Check::Unknown);
    assert_eq!(config.check("", 0), Check::Unknown);
}

#[test]
fn blocked_call_is_blocked() {
    let config = policy(None, set(&[WRITE]));
    assert_eq!(config.check(WRAPPER, WRITE), Check::Blocked);
}

#[test]
fn allowed_call_is_allowed() {
    let config = policy(set(&[WRITE]), None);
    assert_eq!(config.check(WRAPPER, WRITE), Check::Allowed);
}

#[test]
fn call_in_neither_set_is_unknown() {
    let config = policy(set(&[WRITE]), set(&[WRITE]));
    assert_eq!(config.check(WRAPPER, READ), Check::Unknown);
}

#[test]
fn entry_without_sets_is_unknown() {
    let config = policy(None, None);
    assert_eq!(config.check(WRAPPER, WRITE), Check::Unknown);
}

#[test]
fn empty_sets_are_unknown() {
    let config = policy(set(&[]), set(&[]));
    assert_eq!(config.check(WRAPPER, WRITE), Check::Unknown);
}

#[test]
fn allow_wins_over_block() {
    let config = policy(set(&[WRITE]), set(&[WRITE]));
    assert_eq!(config.check(WRAPPER, WRITE), Check::Allowed);
}

#[test]
fn block_counts_where_allow_holds_another_call() {
    let config = policy(set(&[READ]), set(&[WRITE]));
    assert_eq!(config.check(WRAPPER, WRITE), Check::Blocked);
    assert_eq!(config.check(WRAPPER, READ), Check::Allowed);
}

#[test]
fn other_path_is_unknown() {
    let config = policy(None, set(&[WRITE]));
    assert_eq!(config.check("/usr/lib/libc.so.6", WRITE), Check::Unknown);
    assert_eq!(
        config.check("/usr/local/lib/libprintf_wrapper.so.1", WRITE),
        Check::Unknown
    );
    assert_eq!(config.check("/usr/local/lib", WRITE), Check::Unknown);
}

#[test]
fn insert_replaces_the_entry_of_a_path() {
    let mut config = policy(None, set(&[WRITE]));
    config.insert(
        String::from(WRAPPER),
        ConfigEntry {
            allow: set(&[WRITE]),
            block: None,
        },
    );
    assert_eq!(config.shared_objects.len(), 1);
    assert_eq!(config.check(WRAPPER, WRITE), Check::Allowed);
}

#[test]
fn insert_keeps_the_entries_of_other_paths() {
    let mut config = policy(None, set(&[WRITE]));
    config.insert(
        String::from("/usr/lib/libc.so.6"),
        ConfigEntry {
            allow: set(&[WRITE]),
            block: None,
        },
    );
    assert_eq!(config.shared_objects.len(), 2);
    assert_eq!(config.check(WRAPPER, WRITE), Check::Blocked);
    assert_eq!(config.check("/usr/lib/libc.so.6", WRITE), Check::Allowed);
}

#[test]
fn first_entry_of_a_path_counts() {
    let config = Config {
        shared_objects: vec![
            (
                String::from(WRAPPER),
                ConfigEntry {
                    allow: None,
                    block: set(&[WRITE]),
                },
            ),
            (
                String::from(WRAPPER),
                ConfigEntry {
                    allow: set(&[WRITE]),
                    block: None,
                },
            ),
        ],
    };
    assert_eq!(config.check(WRAPPER, WRITE), Check::Blocked);
}

#[test]
fn entry_check_follows_the_sets() {
    let entry = ConfigEntry {
        allow: set(&[READ]),
        block: set(&[READ, WRITE]),
    };
    assert_eq!(entry.check(READ), Check::Allowed);
    assert_eq!(entry.check(WRITE), Check::Blocked);
    assert_eq!(entry.check(0), Check::Unknown);
}

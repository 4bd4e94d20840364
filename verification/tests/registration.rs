use presence_relay::{Presence, Registry, RelayError};

fn is_lower_hex(c: char) -> bool {
    ('0'..='9').contains(&c) || ('a'..='f').contains(&c)
}

#[test]
fn new_registry_is_empty() {
    let registry = Registry::new();
    assert!(registry.is_empty());
    assert_eq!(registry.len(), 0);
    assert_eq!(registry.timers(), 0);
    assert!(registry.snapshot().is_empty());
}

#[test]
fn same_name_in_another_case_is_a_conflict() {
    let mut registry = Registry::new();
    assert!(registry.register("Alice").is_ok());
    assert_eq!(registry.register("alice"), Err(RelayError::NameConflict));
    assert_eq!(registry.register("ALICE"), Err(RelayError::NameConflict));
    assert_eq!(registry.register("aLiCe"), Err(RelayError::NameConflict));
    assert_eq!(registry.register("Alice"), Err(RelayError::NameConflict));
    assert_eq!(registry.len(), 1);
}

#[test]
fn different_names_both_register() {
    let mut registry = Registry::new();
    let alice = registry.register("Alice").unwrap();
    let bob = registry.register("Bob").unwrap();
    assert_ne!(alice, bob);
    assert_eq!(registry.len(), 2);
    assert_eq!(registry.find_by_credential(&alice).unwrap().name(), "Alice");
    assert_eq!(registry.find_by_credential(&bob).unwrap().name(), "Bob");
}

#[test]
fn names_are_compared_by_their_unicode_lowercase_form() {
    let mut registry = Registry::new();
    registry.register("ÄRGER").unwrap();
    assert_eq!(registry.register("ärger"), Err(RelayError::NameConflict));
    assert!(registry.register("arger").is_ok());
    assert_eq!(registry.find_by_name("Ärger").unwrap().name(), "ÄRGER");
}

#[test]
fn display_name_keeps_its_casing() {
    let mut registry = Registry::new();
    let credential = registry.register("McAlice").unwrap();
    let by_credential = registry.find_by_credential(&credential).unwrap();
    assert_eq!(by_credential.name(), "McAlice");
    assert_eq!(by_credential.credential(), credential);
    let by_name = registry.find_by_name("mcalice").unwrap();
    assert_eq!(by_name.name(), "McAlice");
    assert_eq!(by_name.credential(), credential);
    assert_eq!(registry.find_by_name("MCALICE").unwrap().name(), "McAlice");
}

#[test]
fn generated_credential_is_32_lowercase_hex_digits() {
    let mut registry = Registry::new();
    for name in ["a", "b", "c", "d", "e", "f", "g", "h"] {
        let credential = registry.register(name).unwrap();
        assert_eq!(credential.chars().count(), 32);
        assert!(credential.chars().all(is_lower_hex));
    }
}

#[test]
fn generated_credentials_differ_from_each_other() {
    let mut registry = Registry::new();
    let mut issued: Vec<String> = Vec::new();
    for i in 0..200 {
        let credential = registry.register(&format!("client-{}", i)).unwrap();
        assert!(!issued.contains(&credential));
        issued.push(credential);
    }
    assert_eq!(registry.len(), 200);
}

#[test]
fn generated_credentials_differ_from_those_of_removed_clients() {
    let mut registry = Registry::new();
    let first = registry.register("Alice").unwrap();
    registry.remove(&first);
    let second = registry.register("Alice").unwrap();
    assert_ne!(first, second);
    assert!(registry.find_by_credential(&first).is_none());
    assert_eq!(registry.find_by_credential(&second).unwrap().name(), "Alice");
}

#[test]
fn new_client_is_registered_and_not_connected() {
    let mut registry = Registry::new();
    let credential = registry.register("Alice").unwrap();
    assert_eq!(
        registry.find_by_credential(&credential).unwrap().presence(),
        Presence::Registered
    );
}

#[test]
fn register_with_issues_the_given_credential() {
    let mut registry = Registry::new();
    assert_eq!(
        registry.register_with("Alice", "tA".to_string()),
        Ok("tA".to_string())
    );
    assert_eq!(registry.find_by_credential("tA").unwrap().name(), "Alice");
    assert_eq!(registry.find_by_name("ALICE").unwrap().credential(), "tA");
}

#[test]
fn draw_in_use_is_padded_until_new() {
    let mut registry = Registry::new();
    registry.register_with("Alice", "tA".to_string()).unwrap();
    assert_eq!(
        registry.register_with("Bob", "tA".to_string()),
        Ok("tA0".to_string())
    );
    assert_eq!(
        registry.register_with("Carol", "tA".to_string()),
        Ok("tA00".to_string())
    );
    assert_eq!(registry.len(), 3);
    assert_eq!(registry.find_by_credential("tA").unwrap().name(), "Alice");
    assert_eq!(registry.find_by_credential("tA0").unwrap().name(), "Bob");
    assert_eq!(registry.find_by_credential("tA00").unwrap().name(), "Carol");
}

#[test]
fn taken_name_is_a_conflict_whatever_is_drawn() {
    let mut registry = Registry::new();
    registry.register_with("Alice", "tA".to_string()).unwrap();
    assert_eq!(
        registry.register_with("alice", "tA".to_string()),
        Err(RelayError::NameConflict)
    );
    assert_eq!(
        registry.register_with("ALICE", "tB".to_string()),
        Err(RelayError::NameConflict)
    );
    assert_eq!(
        registry.register_with("Alice", String::new()),
        Err(RelayError::NameConflict)
    );
    assert_eq!(
        registry.register_with("Bob", "tB".to_string()),
        Ok("tB".to_string())
    );
}

#[test]
fn failed_registration_changes_nothing() {
    let mut registry = Registry::new();
    registry.register_with("Alice", "tA".to_string()).unwrap();
    assert_eq!(
        registry.register_with("ALICE", "tB".to_string()),
        Err(RelayError::NameConflict)
    );
    assert_eq!(registry.len(), 1);
    assert!(registry.find_by_credential("tB").is_none());
    assert_eq!(registry.find_by_name("alice").unwrap().name(), "Alice");
    assert_eq!(registry.find_by_name("alice").unwrap().credential(), "tA");
}

#[test]
fn lookups_of_unknown_clients_find_nothing() {
    let mut registry = Registry::new();
    assert!(registry.find_by_credential("tA").is_none());
    assert!(registry.find_by_name("Alice").is_none());
    registry.register_with("Alice", "tA".to_string()).unwrap();
    assert!(registry.find_by_credential("ta").is_none());
    assert!(registry.find_by_credential("").is_none());
    assert!(registry.find_by_name("Alic").is_none());
    assert!(registry.find_by_name("tA").is_none());
}

#[test]
fn remove_deletes_the_entry_and_frees_the_name() {
    let mut registry = Registry::new();
    registry.register_with("Alice", "tA".to_string()).unwrap();
    registry.register_with("Bob", "tB".to_string()).unwrap();
    registry.remove("tA");
    assert_eq!(registry.len(), 1);
    assert!(registry.find_by_credential("tA").is_none());
    assert!(registry.find_by_name("alice").is_none());
    assert_eq!(registry.find_by_credential("tB").unwrap().name(), "Bob");
    assert_eq!(
        registry.register_with("ALICE", "tC".to_string()),
        Ok("tC".to_string())
    );
}

#[test]
fn remove_twice_is_remove_once() {
    let mut registry = Registry::new();
    registry.register_with("Alice", "tA".to_string()).unwrap();
    registry.register_with("Bob", "tB".to_string()).unwrap();
    registry.remove("tA");
    registry.remove("tA");
    assert_eq!(registry.len(), 1);
    assert_eq!(registry.find_by_credential("tB").unwrap().name(), "Bob");
    registry.remove("unknown");
    assert_eq!(registry.len(), 1);
}

#[test]
fn upgrade_is_authorized_for_registered_credentials_only() {
    let mut registry = Registry::new();
    assert_eq!(
        registry.authorize_upgrade("tA"),
        Err(RelayError::UpgradeRejected)
    );
    registry.register_with("Alice", "tA".to_string()).unwrap();
    assert_eq!(registry.authorize_upgrade("tA"), Ok(()));
    assert_eq!(
        registry.authorize_upgrade("tB"),
        Err(RelayError::UpgradeRejected)
    );
    registry.remove("tA");
    assert_eq!(
        registry.authorize_upgrade("tA"),
        Err(RelayError::UpgradeRejected)
    );
}

#[test]
fn empty_name_is_a_name_like_any_other() {
    let mut registry = Registry::new();
    let credential = registry.register("").unwrap();
    assert_eq!(registry.register(""), Err(RelayError::NameConflict));
    assert_eq!(registry.find_by_name("").unwrap().credential(), credential);
    assert_eq!(registry.find_by_credential(&credential).unwrap().name(), "");
}

#[test]
fn credential_lookup_is_exact() {
    let mut registry = Registry::new();
    registry.register_with("Alice", "AbC".to_string()).unwrap();
    assert!(registry.find_by_credential("abc").is_none());
    assert!(registry.find_by_credential("ABC").is_none());
    assert!(registry.find_by_credential("AbC ").is_none());
    assert_eq!(registry.find_by_credential("AbC").unwrap().name(), "Alice");
}

#[test]
fn credential_of_a_removed_client_is_never_issued_again() {
    let mut registry = Registry::new();
    registry.register_with("Alice", "tA".to_string()).unwrap();
    registry.remove("tA");
    assert!(registry.is_empty());
    assert_eq!(
        registry.register_with("Bob", "tA".to_string()),
        Ok("tA0".to_string())
    );
    assert_eq!(
        registry.register_with("Alice", "tA".to_string()),
        Ok("tA00".to_string())
    );
    assert!(registry.find_by_credential("tA").is_none());
    assert_eq!(registry.find_by_credential("tA0").unwrap().name(), "Bob");
    assert_eq!(registry.find_by_credential("tA00").unwrap().name(), "Alice");
}

#[test]
fn no_credential_is_issued_twice_over_many_events() {
    let mut registry = Registry::new();
    let mut record: Vec<String> = Vec::new();
    for i in 0..50 {
        let credential = format!("t{}", i);
        assert_eq!(
            registry.register_with(&format!("n{}", i), credential.clone()),
            Ok(credential.clone())
        );
        record.push(credential.clone());
        if i % 2 == 0 {
            registry.remove(&credential);
        }
    }
    for i in 0..50 {
        let mut expected = format!("t{}", i);
        while record.contains(&expected) {
            expected.push('0');
        }
        let issued = registry
            .register_with(&format!("m{}", i), format!("t{}", i))
            .unwrap();
        assert_eq!(issued, expected);
        assert!(!record.contains(&issued));
        record.push(issued);
    }
    assert_eq!(registry.len(), 75);
    assert_eq!(
        registry.find_by_credential("t100").unwrap().name(),
        "m1"
    );
}

#[test]
fn empty_draw_is_padded() {
    let mut registry = Registry::new();
    assert_eq!(
        registry.register_with("Alice", String::new()),
        Ok("0".to_string())
    );
    assert_eq!(
        registry.register_with("Bob", String::new()),
        Ok("00".to_string())
    );
    assert_eq!(
        registry.register_with("Carol", "0".to_string()),
        Ok("000".to_string())
    );
    assert!(registry.find_by_credential("").is_none());
    for line in registry.snapshot() {
        assert!(!line.credential.is_empty());
    }
}

#[test]
fn free_name_always_registers() {
    let mut registry = Registry::new();
    for i in 0..100 {
        assert!(registry.register(&format!("free-{}", i)).is_ok());
        assert_eq!(
            registry.register_with(&format!("drawn-{}", i), "same".to_string()),
            Ok(format!("same{}", "0".repeat(i)))
        );
    }
    assert_eq!(registry.len(), 200);
}


use presence_relay::{ClientInfo, Message, Presence, Registry};
use tokio::sync::mpsc::unbounded_channel;

fn names(listing: &[ClientInfo]) -> Vec<String> {
    listing.iter().map(|info| info.name.clone()).collect()
}

#[test]
fn listing_shows_clients_in_registration_order() {
    let mut registry = Registry::new();
    registry.register_with("Carol", "tC".to_string()).unwrap();
    registry.register_with("alice", "tA".to_string()).unwrap();
    registry.register_with("Bob", "tB".to_string()).unwrap();
    let listing = registry.snapshot();
    assert_eq!(names(&listing), vec!["Carol", "alice", "Bob"]);
    assert_eq!(listing[0].credential, "tC");
    assert_eq!(listing[1].credential, "tA");
    assert_eq!(listing[2].credential, "tB");
}

#[test]
fn listing_shows_the_state_of_each_connection() {
    let mut registry = Registry::new();
    registry.register_with("Alice", "tA".to_string()).unwrap();
    registry.register_with("Bob", "tB".to_string()).unwrap();
    registry.register_with("Carol", "tC".to_string()).unwrap();
    let (tx_b, _rx_b) = unbounded_channel::<Message>();
    let (tx_c, _rx_c) = unbounded_channel::<Message>();
    registry.attach("tB", tx_b).unwrap();
    registry.attach("tC", tx_c).unwrap();
    registry.detach("tC").unwrap();
    let listing = registry.snapshot();
    assert_eq!(listing[0].presence, Presence::Registered);
    assert_eq!(listing[1].presence, Presence::Connected);
    assert_eq!(listing[2].presence, Presence::Grace);
}

#[test]
fn listing_never_repeats_a_name() {
    let mut registry = Registry::new();
    for name in ["Alice", "alice", "ALICE", "Bob", "bob", "Carol", "Alice", "BOB"] {
        let _ = registry.register(name);
    }
    let listing = registry.snapshot();
    assert_eq!(names(&listing), vec!["Alice", "Bob", "Carol"]);
    for (i, one) in listing.iter().enumerate() {
        for other in &listing[i + 1..] {
            assert_ne!(one.name.to_lowercase(), other.name.to_lowercase());
            assert_ne!(one.credential, other.credential);
        }
    }
}

#[test]
fn every_listed_name_has_its_credential() {
    let mut registry = Registry::new();
    let mut issued: Vec<(String, String)> = Vec::new();
    for name in ["Alice", "Bob", "Carol", "Dave"] {
        let credential = registry.register(name).unwrap();
        issued.push((name.to_string(), credential));
        let listing = registry.snapshot();
        assert_eq!(listing.len(), issued.len());
        for (line, (name, credential)) in listing.iter().zip(issued.iter()) {
            assert_eq!(&line.name, name);
            assert_eq!(&line.credential, credential);
            assert!(!line.credential.is_empty());
            assert_eq!(
                registry.find_by_credential(&line.credential).unwrap().name(),
                line.name
            );
        }
    }
}

#[test]
fn listing_is_a_copy() {
    let mut registry = Registry::new();
    registry.register_with("Alice", "tA".to_string()).unwrap();
    let before = registry.snapshot();
    registry.register_with("Bob", "tB".to_string()).unwrap();
    registry.remove("tA");
    assert_eq!(names(&before), vec!["Alice"]);
    assert_eq!(names(&registry.snapshot()), vec!["Bob"]);
}

#[test]
fn client_info_matches_the_client() {
    let mut registry = Registry::new();
    registry.register_with("Alice", "tA".to_string()).unwrap();
    let info = registry.find_by_name("alice").unwrap().info();
    assert_eq!(info.name, "Alice");
    assert_eq!(info.credential, "tA");
    assert_eq!(info.presence, Presence::Registered);
}

#[test]
fn listing_drops_removed_and_evicted_clients() {
    let mut registry = Registry::new();
    registry.register_with("Alice", "tA".to_string()).unwrap();
    registry.register_with("Bob", "tB".to_string()).unwrap();
    registry.register_with("Carol", "tC".to_string()).unwrap();
    let (tx, _rx) = unbounded_channel::<Message>();
    registry.attach("tB", tx).unwrap();
    let ticket = registry.detach("tB").unwrap();
    assert_eq!(names(&registry.snapshot()), vec!["Alice", "Bob", "Carol"]);
    assert!(registry.expire("tB", ticket));
    assert_eq!(names(&registry.snapshot()), vec!["Alice", "Carol"]);
    registry.remove("tA");
    assert_eq!(names(&registry.snapshot()), vec!["Carol"]);
}

#[test]
fn cloned_line_equals_the_line() {
    let mut registry = Registry::new();
    registry.register_with("Alice", "tA".to_string()).unwrap();
    let (tx, _rx) = unbounded_channel::<Message>();
    registry.attach("tA", tx).unwrap();
    let line = registry.snapshot().remove(0);
    let copy = line.clone();
    assert_eq!(copy.name, "Alice");
    assert_eq!(copy.credential, "tA");
    assert_eq!(copy.presence, Presence::Connected);
    assert_eq!(line.name, copy.name);
    assert_eq!(line.credential, copy.credential);
    assert_eq!(line.presence, copy.presence);
}

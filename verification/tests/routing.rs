use presence_relay::{Message, Registry, RelayError};
use tokio::sync::mpsc::error::TryRecvError;
use tokio::sync::mpsc::unbounded_channel;

fn alice_and_bob() -> Registry {
    let mut registry = Registry::new();
    registry.register_with("Alice", "tA".to_string()).unwrap();
    registry.register_with("Bob", "tB".to_string()).unwrap();
    registry
}

#[test]
fn route_to_never_connected_recipient_is_offline() {
    let registry = alice_and_bob();
    assert_eq!(
        registry.route("tA", "Bob", "hi".to_string()),
        Err(RelayError::RecipientOffline)
    );
}

#[test]
fn route_to_unregistered_recipient_is_not_found() {
    let registry = alice_and_bob();
    assert_eq!(
        registry.route("tA", "Carol", "hi".to_string()),
        Err(RelayError::RecipientNotFound)
    );
}

#[test]
fn route_with_unrecognized_sender_is_unauthorized() {
    let mut registry = alice_and_bob();
    let (tx, mut rx) = unbounded_channel::<Message>();
    registry.attach("tB", tx).unwrap();
    assert_eq!(
        registry.route("tX", "Bob", "hi".to_string()),
        Err(RelayError::Unauthorized)
    );
    assert_eq!(rx.try_recv().err(), Some(TryRecvError::Empty));
}

#[test]
fn sender_is_checked_before_recipient() {
    let registry = alice_and_bob();
    assert_eq!(
        registry.route("tX", "Carol", "hi".to_string()),
        Err(RelayError::Unauthorized)
    );
    assert_eq!(
        registry.route("tX", "Bob", "hi".to_string()),
        Err(RelayError::Unauthorized)
    );
}

#[test]
fn end_to_end_delivery() {
    let mut registry = Registry::new();
    let ta = registry.register("Alice").unwrap();
    let tb = registry.register("Bob").unwrap();
    assert_eq!(registry.authorize_upgrade(&tb), Ok(()));
    let (tx, mut rx) = unbounded_channel::<Message>();
    assert_eq!(registry.attach(&tb, tx), Ok(()));
    assert_eq!(registry.route(&ta, "bob", "hi".to_string()), Ok(()));
    let message = rx.try_recv().unwrap();
    assert_eq!(message.from, "Alice");
    assert_eq!(message.body, "hi");
    assert_eq!(rx.try_recv().err(), Some(TryRecvError::Empty));
}

#[test]
fn delivered_frame_has_sender_and_body() {
    let mut registry = alice_and_bob();
    let (tx, mut rx) = unbounded_channel::<Message>();
    registry.attach("tB", tx).unwrap();
    registry.route("tA", "bob", "hi".to_string()).unwrap();
    let message = rx.try_recv().unwrap();
    let mut frame = serde_json::Map::new();
    frame.insert("from".to_string(), serde_json::Value::String(message.from));
    frame.insert("body".to_string(), serde_json::Value::String(message.body));
    let expected: serde_json::Value =
        serde_json::from_str("{\"from\":\"Alice\",\"body\":\"hi\"}").unwrap();
    assert_eq!(serde_json::Value::Object(frame), expected);
}

#[test]
fn recipient_is_found_in_any_casing() {
    let mut registry = alice_and_bob();
    let (tx, mut rx) = unbounded_channel::<Message>();
    registry.attach("tB", tx).unwrap();
    assert_eq!(registry.route("tA", "BOB", "one".to_string()), Ok(()));
    assert_eq!(registry.route("tA", "bOb", "two".to_string()), Ok(()));
    assert_eq!(registry.route("tA", "Bob", "three".to_string()), Ok(()));
    assert_eq!(rx.try_recv().unwrap().body, "one");
    assert_eq!(rx.try_recv().unwrap().body, "two");
    assert_eq!(rx.try_recv().unwrap().body, "three");
    assert_eq!(rx.try_recv().err(), Some(TryRecvError::Empty));
}

#[test]
fn message_goes_to_the_recipient_only() {
    let mut registry = alice_and_bob();
    registry.register_with("Carol", "tC".to_string()).unwrap();
    let (tx_a, mut rx_a) = unbounded_channel::<Message>();
    let (tx_b, mut rx_b) = unbounded_channel::<Message>();
    let (tx_c, mut rx_c) = unbounded_channel::<Message>();
    registry.attach("tA", tx_a).unwrap();
    registry.attach("tB", tx_b).unwrap();
    registry.attach("tC", tx_c).unwrap();
    assert_eq!(registry.route("tC", "alice", "to alice".to_string()), Ok(()));
    let message = rx_a.try_recv().unwrap();
    assert_eq!(message.from, "Carol");
    assert_eq!(message.body, "to alice");
    assert_eq!(rx_a.try_recv().err(), Some(TryRecvError::Empty));
    assert_eq!(rx_b.try_recv().err(), Some(TryRecvError::Empty));
    assert_eq!(rx_c.try_recv().err(), Some(TryRecvError::Empty));
}

#[test]
fn sender_need_not_be_connected() {
    let mut registry = alice_and_bob();
    let (tx, mut rx) = unbounded_channel::<Message>();
    registry.attach("tB", tx).unwrap();
    assert_eq!(registry.route("tA", "Bob", "hi".to_string()), Ok(()));
    assert_eq!(rx.try_recv().unwrap().from, "Alice");
}

#[test]
fn client_can_message_itself() {
    let mut registry = alice_and_bob();
    let (tx, mut rx) = unbounded_channel::<Message>();
    registry.attach("tA", tx).unwrap();
    assert_eq!(registry.route("tA", "alice", "note".to_string()), Ok(()));
    let message = rx.try_recv().unwrap();
    assert_eq!(message.from, "Alice");
    assert_eq!(message.body, "note");
}

#[test]
fn body_is_passed_through_untouched() {
    let mut registry = alice_and_bob();
    let (tx, mut rx) = unbounded_channel::<Message>();
    registry.attach("tB", tx).unwrap();
    let body = "  MiXed \"quotes\" \n and ünïcödé ".to_string();
    registry.route("tA", "bob", body.clone()).unwrap();
    assert_eq!(rx.try_recv().unwrap().body, body);
    registry.route("tA", "bob", String::new()).unwrap();
    assert_eq!(rx.try_recv().unwrap().body, "");
}

#[test]
fn message_to_a_closed_channel_is_dropped_without_error() {
    let mut registry = alice_and_bob();
    let (tx, rx) = unbounded_channel::<Message>();
    registry.attach("tB", tx).unwrap();
    drop(rx);
    assert_eq!(registry.route("tA", "bob", "lost".to_string()), Ok(()));
}

#[test]
fn route_leaves_the_registry_unchanged() {
    let mut registry = alice_and_bob();
    let (tx, _rx) = unbounded_channel::<Message>();
    registry.attach("tB", tx).unwrap();
    registry.route("tA", "bob", "hi".to_string()).unwrap();
    let _ = registry.route("tA", "carol", "hi".to_string());
    let _ = registry.route("tX", "bob", "hi".to_string());
    assert_eq!(registry.len(), 2);
    assert_eq!(registry.timers(), 0);
    assert_eq!(registry.find_by_credential("tA").unwrap().name(), "Alice");
    assert_eq!(registry.find_by_credential("tB").unwrap().name(), "Bob");
}

#[test]
fn plan_route_names_the_channel_and_the_message() {
    let mut registry = alice_and_bob();
    let (tx, mut rx) = unbounded_channel::<Message>();
    registry.attach("tB", tx).unwrap();
    match registry.plan_route("tA", "BOB", "hi".to_string()) {
        Ok((outbound, message)) => {
            assert_eq!(message.from, "Alice");
            assert_eq!(message.body, "hi");
            assert_eq!(rx.try_recv().err(), Some(TryRecvError::Empty));
            outbound
                .send(Message {
                    from: "probe".to_string(),
                    body: "p".to_string(),
                })
                .ok()
                .unwrap();
            assert_eq!(rx.try_recv().unwrap().from, "probe");
        }
        Err(error) => panic!("planned no delivery: {:?}", error),
    }
}

#[test]
fn plan_route_reports_each_refusal() {
    let registry = alice_and_bob();
    assert_eq!(
        registry.plan_route("tX", "bob", "hi".to_string()).err(),
        Some(RelayError::Unauthorized)
    );
    assert_eq!(
        registry.plan_route("tA", "carol", "hi".to_string()).err(),
        Some(RelayError::RecipientNotFound)
    );
    assert_eq!(
        registry.plan_route("tA", "bob", "hi".to_string()).err(),
        Some(RelayError::RecipientOffline)
    );
}

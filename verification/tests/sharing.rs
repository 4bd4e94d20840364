use presence_relay::{Message, Registry, RelayError};
use std::sync::{Arc, Mutex};
use tokio::sync::mpsc::unbounded_channel;

fn can_cross_threads<T: Send + Sync + 'static>() {}

#[test]
fn registry_can_be_shared_behind_a_lock() {
    can_cross_threads::<Registry>();
    can_cross_threads::<Arc<Mutex<Registry>>>();
    can_cross_threads::<Message>();
    can_cross_threads::<RelayError>();
}

#[test]
fn operations_under_one_lock_see_each_other() {
    let shared = Arc::new(Mutex::new(Registry::new()));
    let writer = shared.clone();
    let credential = writer.lock().unwrap().register("Alice").unwrap();
    let (tx, mut rx) = unbounded_channel::<Message>();
    shared.lock().unwrap().attach(&credential, tx).unwrap();
    let reader = shared.clone();
    assert_eq!(
        reader
            .lock()
            .unwrap()
            .route(&credential, "alice", "hi".to_string()),
        Ok(())
    );
    assert_eq!(rx.try_recv().unwrap().from, "Alice");
    assert_eq!(shared.lock().unwrap().snapshot().len(), 1);
}

#[test]
fn concurrent_registrations_of_one_name_have_one_winner() {
    let rt = tokio::runtime::Builder::new_current_thread()
        .build()
        .unwrap();
    let shared = Arc::new(tokio::sync::Mutex::new(Registry::new()));
    let mut tasks = Vec::new();
    for name in ["Alice", "alice", "ALICE", "aLiCe", "AlicE", "alicE", "ALice", "alICE"] {
        let shared = shared.clone();
        tasks.push(rt.spawn(async move {
            tokio::task::yield_now().await;
            shared.lock().await.register(name)
        }));
    }
    let mut issued = Vec::new();
    for task in tasks {
        match rt.block_on(task).unwrap() {
            Ok(credential) => issued.push(credential),
            Err(error) => assert_eq!(error, RelayError::NameConflict),
        }
    }
    assert_eq!(issued.len(), 1);
    let listing = rt.block_on(async { shared.lock().await.snapshot() });
    assert_eq!(listing.len(), 1);
    assert_eq!(listing[0].credential, issued[0]);
    assert_eq!(listing[0].name.to_lowercase(), "alice");
}

#[test]
fn listing_between_concurrent_registrations_shows_whole_entries() {
    let rt = tokio::runtime::Builder::new_current_thread()
        .build()
        .unwrap();
    let shared = Arc::new(tokio::sync::Mutex::new(Registry::new()));
    let mut writers = Vec::new();
    for i in 0..16 {
        let shared = shared.clone();
        writers.push(rt.spawn(async move {
            for round in 0..4 {
                tokio::task::yield_now().await;
                let name = format!("Client{}", (i + round) % 10);
                let _ = shared.lock().await.register(&name);
            }
        }));
    }
    let reader = {
        let shared = shared.clone();
        rt.spawn(async move {
            let mut seen = 0;
            for _ in 0..64 {
                tokio::task::yield_now().await;
                let registry = shared.lock().await;
                let listing = registry.snapshot();
                for (i, line) in listing.iter().enumerate() {
                    assert_eq!(line.credential.chars().count(), 32);
                    assert_eq!(
                        registry.find_by_credential(&line.credential).unwrap().name(),
                        line.name
                    );
                    for other in &listing[i + 1..] {
                        assert_ne!(line.name.to_lowercase(), other.name.to_lowercase());
                        assert_ne!(line.credential, other.credential);
                    }
                }
                seen = seen.max(listing.len());
            }
            seen
        })
    };
    for writer in writers {
        rt.block_on(writer).unwrap();
    }
    let seen = rt.block_on(reader).unwrap();
    assert!(seen <= 10);
    assert_eq!(rt.block_on(async { shared.lock().await.len() }), 10);
}

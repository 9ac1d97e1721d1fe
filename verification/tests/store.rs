use chat_core::report::ChatError;
use chat_core::store::MemoryStore;

#[test]
fn register_then_exists() {
    let mut store = MemoryStore::new();
    assert!(!store.user_exists(&"alice".to_string()));
    store.register_user(&"alice".to_string()).unwrap();
    assert!(store.user_exists(&"alice".to_string()));
}

#[test]
fn duplicate_registration_is_an_auth_error() {
    let mut store = MemoryStore::new();
    store.register_user(&"alice".to_string()).unwrap();
    assert_eq!(store.register_user(&"alice".to_string()).unwrap_err(), ChatError::Auth);
}

#[test]
fn save_message_requires_an_existing_user() {
    let mut store = MemoryStore::new();
    assert_eq!(
        store.save_message(&"ghost".to_string(), &"hi".to_string()).unwrap_err(),
        ChatError::Persistence
    );
    store.register_user(&"alice".to_string()).unwrap();
    store.save_message(&"alice".to_string(), &"hi".to_string()).unwrap();
    assert_eq!(store.message_count(), 1);
}

#[test]
fn messages_keep_their_order() {
    let mut store = MemoryStore::new();
    store.register_user(&"alice".to_string()).unwrap();
    store.register_user(&"bob".to_string()).unwrap();
    store.save_message(&"alice".to_string(), &"one".to_string()).unwrap();
    store.save_message(&"bob".to_string(), &"two".to_string()).unwrap();
    store.save_message(&"alice".to_string(), &"three".to_string()).unwrap();
    let all = store.get_messages();
    let pairs: Vec<(String, String)> =
        all.into_iter().map(|m| (m.username, m.content)).collect();
    assert_eq!(
        pairs,
        vec![
            ("alice".to_string(), "one".to_string()),
            ("bob".to_string(), "two".to_string()),
            ("alice".to_string(), "three".to_string()),
        ]
    );
}

#[test]
fn delete_user_removes_user_and_their_messages() {
    let mut store = MemoryStore::new();
    store.register_user(&"alice".to_string()).unwrap();
    store.register_user(&"bob".to_string()).unwrap();
    store.save_message(&"alice".to_string(), &"one".to_string()).unwrap();
    store.save_message(&"bob".to_string(), &"two".to_string()).unwrap();
    store.delete_user(&"alice".to_string()).unwrap();
    assert!(!store.user_exists(&"alice".to_string()));
    assert!(store.user_exists(&"bob".to_string()));
    let rest = store.fetch_messages();
    assert_eq!(rest.len(), 1);
    assert_eq!(rest[0].username, "bob");
}

#[test]
fn delete_unknown_user_is_an_auth_error() {
    let mut store = MemoryStore::new();
    assert_eq!(store.delete_user(&"ghost".to_string()).unwrap_err(), ChatError::Auth);
}

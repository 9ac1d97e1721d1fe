use chat_core::registry::Registry;

#[test]
fn lookup_reflects_inserts_and_updates() {
    let mut reg = Registry::new();
    assert!(reg.lookup(1).is_none());
    reg.insert(1, String::new());
    assert_eq!(reg.lookup(1).unwrap(), "");
    reg.update_username(1, "alice".to_string());
    assert_eq!(reg.lookup(1).unwrap(), "alice");
    assert_eq!(reg.len(), 1);
}

#[test]
fn remove_takes_out_exactly_its_own_entry() {
    let mut reg = Registry::new();
    reg.insert(1, "alice".to_string());
    reg.insert(2, "bob".to_string());
    reg.remove(1);
    assert!(reg.lookup(1).is_none());
    assert_eq!(reg.lookup(2).unwrap(), "bob");
    assert_eq!(reg.len(), 1);
}

#[test]
fn removing_an_absent_address_changes_nothing() {
    let mut reg = Registry::new();
    reg.insert(5, "carol".to_string());
    reg.remove(6);
    assert_eq!(reg.len(), 1);
    assert_eq!(reg.lookup(5).unwrap(), "carol");
}

#[test]
fn reinserting_an_address_overwrites_its_entry() {
    let mut reg = Registry::new();
    reg.insert(1, "alice".to_string());
    reg.insert(1, "bob".to_string());
    assert_eq!(reg.len(), 1);
    assert_eq!(reg.lookup(1).unwrap(), "bob");
}

#[test]
fn lifecycle_many_connections() {
    // each connection authenticates under its own address: one entry each
    let mut reg = Registry::new();
    let names = ["a", "b", "c", "d", "e"];
    for (i, name) in names.iter().enumerate() {
        reg.insert(i as u64, name.to_string());
    }
    assert_eq!(reg.len(), names.len());
    for (i, name) in names.iter().enumerate() {
        assert_eq!(reg.lookup(i as u64).unwrap(), *name);
    }
    // each quit removes exactly its own entry, in an arbitrary order
    for i in [3u64, 0, 4, 1, 2] {
        assert!(reg.contains(i));
        reg.remove(i);
        assert!(!reg.contains(i));
    }
    // after all have left, the registry is empty
    assert_eq!(reg.len(), 0);
}

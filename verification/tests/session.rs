use chat_core::message::MessageType;
use chat_core::report::ChatError;
use chat_core::server::ServerCore;
use chat_core::session::SessionState;
use chat_core::store::MemoryStore;

fn fresh_server() -> ServerCore {
    ServerCore::new(MemoryStore::new())
}

fn text(s: &str) -> MessageType {
    MessageType::Text(s.to_string())
}

#[test]
fn session_gating_rejects_text_before_login() {
    let mut server = fresh_server();
    let mut session = server.accept_connection(7);
    let (reply, terminate) = server.handle_unauth_message(&mut session, text("hi"));
    assert!(!terminate);
    match reply {
        Some(MessageType::Error(e)) => {
            assert_eq!(e, "Please login or register. \n .login <username> \n or \n .register <username>")
        }
        other => panic!("expected an error reply, got {:?}", other),
    }
    // connection still open and unauthenticated, store and registry untouched
    assert!(matches!(session.state, SessionState::Unauthenticated));
    assert!(!server.store.user_exists(&"hi".to_string()));
    assert_eq!(server.registry.lookup(7).unwrap(), "");
}

#[test]
fn auth_happy_path_register() {
    let mut server = fresh_server();
    let mut session = server.accept_connection(1);
    let (reply, terminate) = server.handle_unauth_message(
        &mut session,
        MessageType::Register("alice".to_string()),
    );
    assert!(!terminate);
    match reply {
        Some(MessageType::Text(t)) => assert_eq!(t, "User alice registered successfully"),
        other => panic!("expected a confirmation, got {:?}", other),
    }
    match &session.state {
        SessionState::Authenticated(u) => assert_eq!(u, "alice"),
        _ => panic!("session should be authenticated"),
    }
    assert!(server.store.user_exists(&"alice".to_string()));
    assert_eq!(server.registry.lookup(1).unwrap(), "alice");
}

#[test]
fn auth_failure_path_login_unknown_user() {
    let mut server = fresh_server();
    let mut session = server.accept_connection(1);
    let (reply, terminate) = server.handle_unauth_message(
        &mut session,
        MessageType::Login("ghost".to_string()),
    );
    assert!(!terminate);
    match reply {
        Some(MessageType::Error(e)) => {
            assert_eq!(e, "User does not exist. You can create new user by \n \n               .register <username> \n               \n or provide correct username and login by \n               \n .login <username>")
        }
        other => panic!("expected an error reply, got {:?}", other),
    }
    assert!(matches!(session.state, SessionState::Unauthenticated));
    assert!(!server.store.user_exists(&"ghost".to_string()));
    // registry still holds the accept-time entry with an empty username
    assert_eq!(server.registry.lookup(1).unwrap(), "");
}

#[test]
fn login_after_register_is_welcomed() {
    let mut server = fresh_server();
    let mut first = server.accept_connection(1);
    server.handle_unauth_message(&mut first, MessageType::Register("alice".to_string()));
    let mut second = server.accept_connection(2);
    let (reply, _) = server.handle_unauth_message(
        &mut second,
        MessageType::Login("alice".to_string()),
    );
    match reply {
        Some(MessageType::Text(t)) => assert_eq!(t, "Welcome, alice!"),
        other => panic!("expected a welcome, got {:?}", other),
    }
    assert_eq!(server.registry.lookup(2).unwrap(), "alice");
}

#[test]
fn duplicate_registration_fails() {
    let mut server = fresh_server();
    let mut first = server.accept_connection(1);
    server.handle_unauth_message(&mut first, MessageType::Register("alice".to_string()));
    let mut second = server.accept_connection(2);
    let (reply, _) = server.handle_unauth_message(
        &mut second,
        MessageType::Register("alice".to_string()),
    );
    match reply {
        Some(MessageType::Error(e)) => assert_eq!(e, "Failed to register user."),
        other => panic!("expected a failure reply, got {:?}", other),
    }
    assert!(matches!(second.state, SessionState::Unauthenticated));
}

#[test]
fn quit_before_login_terminates_without_reply() {
    let mut server = fresh_server();
    let mut session = server.accept_connection(1);
    let (reply, terminate) = server.handle_unauth_message(&mut session, MessageType::Quit);
    assert!(terminate);
    assert!(reply.is_none());
}

#[test]
fn authenticated_text_is_persisted() {
    let mut server = fresh_server();
    let mut session = server.accept_connection(1);
    server.handle_unauth_message(&mut session, MessageType::Register("alice".to_string()));
    let (terminate, err) = server.handle_message(1, &"alice".to_string(), text("hi"), 0);
    assert!(!terminate);
    assert!(err.is_none());
    let messages = server.store.fetch_messages();
    assert_eq!(messages.len(), 1);
    assert_eq!(messages[0].username, "alice");
    assert_eq!(messages[0].content, "hi");
}

#[test]
fn authenticated_file_is_stored_verbatim() {
    let mut server = fresh_server();
    let mut session = server.accept_connection(1);
    server.handle_unauth_message(&mut session, MessageType::Register("alice".to_string()));
    let message = MessageType::File("notes.txt".to_string(), vec![1, 2, 3]);
    let (terminate, err) = server.handle_message(1, &"alice".to_string(), message, 5);
    assert!(!terminate);
    assert!(err.is_none());
    assert_eq!(server.files.len(), 1);
    assert_eq!(server.files[0].name, "files/notes.txt");
    assert_eq!(server.files[0].data, vec![1, 2, 3]);
}

#[test]
fn authenticated_image_is_recoded_to_png() {
    // a 1 by 1 transparent PNG
    let png: Vec<u8> = vec![
        137, 80, 78, 71, 13, 10, 26, 10, 0, 0, 0, 13, 73, 72, 68, 82, 0, 0, 0, 1, 0, 0, 0, 1, 8,
        6, 0, 0, 0, 31, 21, 196, 137, 0, 0, 0, 13, 73, 68, 65, 84, 120, 218, 99, 100, 96, 248, 95,
        15, 0, 2, 135, 1, 128, 235, 71, 186, 146, 0, 0, 0, 0, 73, 69, 78, 68, 174, 66, 96, 130,
    ];
    let mut server = fresh_server();
    let mut session = server.accept_connection(1);
    server.handle_unauth_message(&mut session, MessageType::Register("alice".to_string()));
    let (terminate, err) = server.handle_message(
        1,
        &"alice".to_string(),
        MessageType::Image(png),
        1234,
    );
    assert!(!terminate);
    assert!(err.is_none());
    assert_eq!(server.files.len(), 1);
    assert_eq!(server.files[0].name, "images/1234.png");
    // the stored bytes are a PNG again
    assert_eq!(&server.files[0].data[..8], &[137u8, 80, 78, 71, 13, 10, 26, 10]);
}

#[test]
fn undecodable_image_reports_an_io_error_and_stores_nothing() {
    let mut server = fresh_server();
    let mut session = server.accept_connection(1);
    server.handle_unauth_message(&mut session, MessageType::Register("alice".to_string()));
    let (terminate, err) = server.handle_message(
        1,
        &"alice".to_string(),
        MessageType::Image(vec![1, 2, 3, 4]),
        0,
    );
    assert!(!terminate);
    assert_eq!(err.unwrap(), ChatError::Io);
    assert!(server.files.is_empty());
}

#[test]
fn misuse_after_authentication_is_ignored() {
    let mut server = fresh_server();
    let mut session = server.accept_connection(1);
    server.handle_unauth_message(&mut session, MessageType::Register("alice".to_string()));
    let before = server.store.message_count();
    let (t1, e1) = server.handle_message(
        1,
        &"alice".to_string(),
        MessageType::Login("alice".to_string()),
        0,
    );
    let (t2, e2) = server.handle_message(
        1,
        &"alice".to_string(),
        MessageType::Error("peer says ouch".to_string()),
        0,
    );
    assert!(!t1 && !t2 && e1.is_none() && e2.is_none());
    assert_eq!(server.store.message_count(), before);
    assert_eq!(server.registry.lookup(1).unwrap(), "alice");
}

#[test]
fn quit_after_authentication_deregisters() {
    let mut server = fresh_server();
    let mut session = server.accept_connection(1);
    server.handle_unauth_message(&mut session, MessageType::Register("alice".to_string()));
    let (terminate, err) = server.handle_message(1, &"alice".to_string(), MessageType::Quit, 0);
    assert!(terminate);
    assert!(err.is_none());
    assert!(server.registry.lookup(1).is_none());
}

#[test]
fn end_to_end_scenario() {
    // connect, register alice, send a chat line, quit
    let mut server = fresh_server();
    let incoming = vec![
        MessageType::Register("alice".to_string()),
        text("hi"),
        MessageType::Quit,
    ];
    let replies = server.handle_client(9, incoming, 0);

    // the client was told the registration succeeded
    assert_eq!(replies.len(), 1);
    match &replies[0] {
        MessageType::Text(t) => assert_eq!(t, "User alice registered successfully"),
        other => panic!("expected the confirmation, got {:?}", other),
    }
    // the store received ("alice", "hi")
    let messages = server.store.fetch_messages();
    assert_eq!(messages.len(), 1);
    assert_eq!(messages[0].username, "alice");
    assert_eq!(messages[0].content, "hi");
    // the registry no longer contains the connection
    assert_eq!(server.registry.len(), 0);
    assert!(server.registry.lookup(9).is_none());
}

#[test]
fn whole_run_stores_files_in_arrival_order() {
    let mut server = fresh_server();
    let incoming = vec![
        MessageType::Register("alice".to_string()),
        MessageType::File("a.bin".to_string(), vec![1]),
        MessageType::File("b.bin".to_string(), vec![2]),
        MessageType::Quit,
    ];
    let replies = server.handle_client(4, incoming, 0);
    // only the registration confirmation is owed
    assert_eq!(replies.len(), 1);
    assert!(matches!(&replies[0], MessageType::Text(_)));
    // both files stored, in the order they arrived
    assert_eq!(server.files.len(), 2);
    assert_eq!(server.files[0].name, "files/a.bin");
    assert_eq!(server.files[1].name, "files/b.bin");
    assert_eq!(server.registry.len(), 0);
}

#[test]
fn connection_that_runs_dry_is_deregistered() {
    let mut server = fresh_server();
    let replies = server.handle_client(3, vec![text("hi")], 0);
    // unauthenticated text: asked to log in, then the transport ended
    assert_eq!(replies.len(), 1);
    assert!(matches!(&replies[0], MessageType::Error(_)));
    assert_eq!(server.registry.len(), 0);
}

#[test]
fn persistence_failure_is_reported_as_error_reply() {
    let mut server = fresh_server();
    // authenticated handling for a user the store does not know
    let (terminate, err) = server.handle_message(1, &"nobody".to_string(), text("hi"), 0);
    assert!(!terminate);
    assert_eq!(err.unwrap(), ChatError::Persistence);
    assert_eq!(server.store.message_count(), 0);
}

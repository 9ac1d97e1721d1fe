use chat_core::client_input::{parse_input_line, ClientCommand};

#[test]
fn plain_lines_are_chat_text() {
    match parse_input_line("hello there") {
        ClientCommand::SendText(t) => assert_eq!(t, "hello there"),
        other => panic!("expected text, got {:?}", other),
    }
    match parse_input_line("") {
        ClientCommand::SendText(t) => assert_eq!(t, ""),
        other => panic!("expected text, got {:?}", other),
    }
}

#[test]
fn quit_command() {
    assert!(matches!(parse_input_line(".quit"), ClientCommand::Quit));
}

#[test]
fn file_command_takes_a_path() {
    match parse_input_line(".file /tmp/notes.txt") {
        ClientCommand::SendFile(p) => assert_eq!(p, "/tmp/notes.txt"),
        other => panic!("expected a file command, got {:?}", other),
    }
}

#[test]
fn image_command_takes_a_path() {
    match parse_input_line(".image  cat.png ") {
        ClientCommand::SendImage(p) => assert_eq!(p, "cat.png"),
        other => panic!("expected an image command, got {:?}", other),
    }
}

#[test]
fn login_and_register_take_a_username() {
    match parse_input_line(".login alice") {
        ClientCommand::Login(u) => assert_eq!(u, "alice"),
        other => panic!("expected a login, got {:?}", other),
    }
    match parse_input_line(".register bob") {
        ClientCommand::Register(u) => assert_eq!(u, "bob"),
        other => panic!("expected a register, got {:?}", other),
    }
}

#[test]
fn missing_arguments_are_invalid() {
    assert!(matches!(parse_input_line(".file"), ClientCommand::Invalid));
    assert!(matches!(parse_input_line(".image"), ClientCommand::Invalid));
    assert!(matches!(parse_input_line(".login"), ClientCommand::Invalid));
    assert!(matches!(parse_input_line(".register"), ClientCommand::Invalid));
}

#[test]
fn unknown_dot_commands_are_invalid() {
    assert!(matches!(parse_input_line(".dance"), ClientCommand::Invalid));
    assert!(matches!(parse_input_line(".filexyz a"), ClientCommand::Invalid));
}

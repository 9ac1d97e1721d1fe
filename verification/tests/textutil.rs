use chat_core::textutil::{
    camelcase, lowercase, my_slugify, no_space, snakecase, uppercase, Command,
};

#[test]
fn command_parsing() {
    assert_eq!(Command::from_str("lowercase").unwrap(), Command::LowerCase);
    assert_eq!(Command::from_str("uppercase").unwrap(), Command::UpperCase);
    assert_eq!(Command::from_str("nospace").unwrap(), Command::NoSpace);
    assert_eq!(Command::from_str("slugify").unwrap(), Command::Slugify);
    assert_eq!(Command::from_str("camelcase").unwrap(), Command::CamelCase);
    assert_eq!(Command::from_str("snakecase").unwrap(), Command::SnakeCase);
    assert_eq!(Command::from_str("csv").unwrap(), Command::Csv);
    assert_eq!(Command::from_str("sing").unwrap(), Command::Unknown);
}

#[test]
fn command_names_round_trip() {
    for c in [
        Command::LowerCase,
        Command::UpperCase,
        Command::NoSpace,
        Command::Slugify,
        Command::CamelCase,
        Command::SnakeCase,
        Command::Csv,
    ] {
        assert_eq!(Command::from_str(c.name()).unwrap(), c);
    }
    assert_eq!(Command::Unknown.name(), "unknown");
}

#[test]
fn lowercase_maps_letters_down() {
    let out = lowercase(&"lowercase".to_string(), &"Hello WORLD".to_string()).unwrap();
    assert_eq!(out, "hello world");
}

#[test]
fn lowercase_refuses_a_wrong_command() {
    let err = lowercase(&"uppercase".to_string(), &"x".to_string()).unwrap_err();
    assert!(err.contains("lowercase was called"));
}

#[test]
fn uppercase_maps_letters_up() {
    let out = uppercase(&"uppercase".to_string(), &"žluťoučký".to_string()).unwrap();
    assert_eq!(out, "ŽLUŤOUČKÝ");
}

#[test]
fn no_space_strips_blanks_under_its_own_name() {
    let out = no_space(&"no-space".to_string(), &"a b  c".to_string()).unwrap();
    assert_eq!(out, "abc");
}

#[test]
fn no_space_refuses_the_dispatcher_name() {
    // the command renders as "nospace", which this transformation refuses
    let err = no_space(&Command::NoSpace.name().to_string(), &"a b".to_string()).unwrap_err();
    assert!(err.contains("no-space was called"));
}

#[test]
fn slugify_builds_a_slug() {
    let out = my_slugify(&"slugify".to_string(), &"Hello World!".to_string()).unwrap();
    assert_eq!(out, "hello-world");
}

#[test]
fn camelcase_builds_upper_camel() {
    let out = camelcase(&"camelcase".to_string(), &"hello world".to_string()).unwrap();
    assert_eq!(out, "HelloWorld");
}

#[test]
fn snakecase_builds_snake() {
    let out = snakecase(&"snakecase".to_string(), &"helloWorld again".to_string()).unwrap();
    assert_eq!(out, "hello_world_again");
}

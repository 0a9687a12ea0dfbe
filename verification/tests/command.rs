use herdr_docs::command::{parse_command, Command};

fn args(list: &[&str]) -> Vec<String> {
    list.iter().map(|a| a.to_string()).collect()
}

#[test]
fn no_arguments_open_the_reader() {
    assert!(matches!(parse_command(&args(&[])), Ok(Command::Reader(None))));
}

#[test]
fn reader_takes_an_optional_path() {
    match parse_command(&args(&["open", "notes.md"])) {
        Ok(Command::Reader(Some(path))) => assert_eq!(path, "notes.md"),
        _ => panic!("expected the reader"),
    }
    assert_eq!(
        parse_command(&args(&["reader", "a", "b"])).err(),
        Some("usage: herdr-docs reader [PATH]".to_string())
    );
}

#[test]
fn context_needs_exactly_one_path() {
    match parse_command(&args(&["render", "doc.pdf"])) {
        Ok(Command::Context(path)) => assert_eq!(path, "doc.pdf"),
        _ => panic!("expected context"),
    }
    assert_eq!(
        parse_command(&args(&["context"])).err(),
        Some("usage: herdr-docs context PATH".to_string())
    );
    assert_eq!(
        parse_command(&args(&["export", "a", "b"])).err(),
        Some("usage: herdr-docs context PATH".to_string())
    );
}

#[test]
fn other_commands() {
    assert!(matches!(parse_command(&args(&["startup", "x"])), Ok(Command::Startup)));
    assert!(matches!(parse_command(&args(&["doctor"])), Ok(Command::Doctor)));
    assert_eq!(
        parse_command(&args(&["doctor", "x"])).err(),
        Some("usage: herdr-docs doctor".to_string())
    );
    assert!(matches!(parse_command(&args(&["-V"])), Ok(Command::Version)));
    assert!(matches!(parse_command(&args(&["--help"])), Ok(Command::Help)));
    assert_eq!(
        parse_command(&args(&["frobnicate"])).err(),
        Some("unknown command 'frobnicate'. Run `herdr-docs --help` for usage.".to_string())
    );
}

use palladiumos::shell::{is_control, is_whitespace, parse_command, Command};

#[test]
fn empty_input() {
    assert_eq!(parse_command(""), Command::Empty);
    assert_eq!(parse_command("   \t "), Command::Empty);
}

#[test]
fn known_commands() {
    assert_eq!(parse_command("help"), Command::Help);
    assert_eq!(parse_command("clear"), Command::Clear);
    assert_eq!(parse_command("about"), Command::About);
    assert_eq!(parse_command("  help  "), Command::Help);
    assert_eq!(parse_command("help me"), Command::Help);
}

#[test]
fn echo_takes_the_rest_of_the_line() {
    assert_eq!(parse_command("echo hello world"), Command::Echo("hello world".to_string()));
    assert_eq!(parse_command("echo  spaced"), Command::Echo(" spaced".to_string()));
    assert_eq!(parse_command("echo"), Command::Echo(String::new()));
    assert_eq!(parse_command("\techo hi\n"), Command::Echo("hi".to_string()));
}

#[test]
fn unknown_command() {
    assert_eq!(parse_command("foo bar"), Command::Unknown("foo".to_string()));
    assert_eq!(parse_command("HELP"), Command::Unknown("HELP".to_string()));
    assert_eq!(parse_command("héllo"), Command::Unknown("héllo".to_string()));
}

#[test]
fn character_classes_match_std() {
    for c in ['a', ' ', '\t', '\n', '\u{85}', '\u{a0}', '\u{2003}', '\u{3000}', '\u{7f}', '\u{9f}', 'é', '\0'] {
        assert_eq!(is_whitespace(c), c.is_whitespace());
        assert_eq!(is_control(c), c.is_control());
    }
}

#[test]
fn reboot_panic_and_edit_commands() {
    assert_eq!(parse_command("reboot"), Command::Reboot);
    assert_eq!(parse_command("panic"), Command::Panic);
    assert_eq!(parse_command(" edit notes.txt "), Command::Edit("notes.txt".to_string()));
    assert_eq!(parse_command("edit /docs/a b"), Command::Edit("/docs/a b".to_string()));
    assert_eq!(parse_command("edit"), Command::Edit(String::new()));
}

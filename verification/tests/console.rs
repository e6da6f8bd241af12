use palladiumos::console::{Action, Console, Key};
use palladiumos::keyboard::{is_key_down, KeyDecoder};
use pc_keyboard::{KeyCode, KeyEvent, KeyState};
use palladiumos::shell::Command;

#[test]
fn new_console() {
    let c = Console::new();
    assert_eq!(c.cwd, "/");
    assert_eq!(c.input_buffer, "");
    assert!(!c.editor_active());
    assert!(c.fs.is_dir("/"));
}

#[test]
fn typing_and_enter() {
    let mut c = Console::new();
    for ch in "echo hi".chars() {
        assert_eq!(c.handle_key(Key::Char(ch)), Action::Echo(ch));
    }
    assert_eq!(c.input_buffer, "echo hi");
    assert_eq!(c.handle_key(Key::Char('\n')), Action::Run(Command::Echo("hi".to_string())));
    assert_eq!(c.input_buffer, "");
    assert_eq!(c.handle_key(Key::Char('\n')), Action::Run(Command::Empty));
}

#[test]
fn backspace_in_shell() {
    let mut c = Console::new();
    assert_eq!(c.handle_key(Key::Char('\u{8}')), Action::Nothing);
    assert_eq!(c.handle_key(Key::Char('a')), Action::Echo('a'));
    assert_eq!(c.handle_key(Key::Char('b')), Action::Echo('b'));
    assert_eq!(c.handle_key(Key::Char('\u{8}')), Action::Erase);
    assert_eq!(c.input_buffer, "a");
}

#[test]
fn shell_ignores_control_and_raw_keys() {
    let mut c = Console::new();
    assert_eq!(c.handle_key(Key::Char('\u{1b}')), Action::Nothing);
    assert_eq!(c.handle_key(Key::ArrowUp), Action::Nothing);
    assert_eq!(c.handle_key(Key::Other), Action::Nothing);
    assert_eq!(c.input_buffer, "");
}

#[test]
fn editor_session() {
    let mut c = Console::new();
    c.open_editor("/note.txt");
    assert!(c.editor_active());
    assert!(c.accepts_event(true));
    assert!(!c.accepts_event(false));
    assert_eq!(c.handle_key(Key::Char('h')), Action::Redraw);
    assert_eq!(c.handle_key(Key::Char('i')), Action::Redraw);
    assert_eq!(c.handle_key(Key::Char('\n')), Action::Redraw);
    assert_eq!(c.handle_key(Key::Char('x')), Action::Redraw);
    assert_eq!(c.handle_key(Key::Char('\u{8}')), Action::Redraw);
    assert_eq!(c.handle_key(Key::ArrowUp), Action::Redraw);
    assert_eq!(c.handle_key(Key::ArrowRight), Action::Redraw);
    assert_eq!(c.handle_key(Key::ArrowLeft), Action::Redraw);
    assert_eq!(c.handle_key(Key::ArrowDown), Action::Redraw);
    assert_eq!(c.handle_key(Key::Other), Action::Nothing);
    assert_eq!(c.handle_key(Key::Char('\u{1b}')), Action::Nothing);
    assert_eq!(c.handle_key(Key::Char('\u{13}')), Action::Saved(Ok(())));
    assert_eq!(c.fs.read_file("/note.txt"), Ok("hi\n".to_string()));
    assert!(!c.editor.as_ref().unwrap().dirty);
    assert_eq!(c.handle_key(Key::Char('\u{11}')), Action::Closed);
    assert!(!c.editor_active());
    assert!(c.accepts_event(false));
}

#[test]
fn editor_save_failure_reported() {
    let mut c = Console::new();
    c.open_editor("/no/such/file");
    assert_eq!(c.handle_key(Key::Char('a')), Action::Redraw);
    assert_eq!(c.handle_key(Key::Char('\u{13}')), Action::Saved(Err("Parent directory not found")));
    assert!(c.editor.as_ref().unwrap().dirty);
}

#[test]
fn can_handle_checks_character_boundaries() {
    let mut c = Console::new();
    c.open_editor("/f");
    assert!(c.can_handle(&Key::Char('é')));
    assert_eq!(c.handle_key(Key::Char('é')), Action::Redraw);
    assert!(!c.can_handle(&Key::Char('a')));
    assert!(!c.can_handle(&Key::Char('\n')));
    assert!(c.can_handle(&Key::Char('\u{8}')));
    assert_eq!(c.handle_key(Key::Char('\u{8}')), Action::Redraw);
    assert_eq!(c.editor.as_ref().unwrap().lines, vec![String::new()]);
    assert!(c.can_handle(&Key::ArrowLeft));
    assert!(c.can_handle(&Key::Char('\u{13}')));
}

#[test]
fn edit_command_opens_file_relative_to_cwd() {
    let mut c = Console::new();
    assert_eq!(c.fs.make_dir("/docs"), Ok(()));
    assert_eq!(c.fs.write_file("/docs/notes.txt", "one\ntwo"), Ok(()));
    c.cwd = "/docs".to_string();
    for ch in "edit notes.txt".chars() {
        c.handle_key(Key::Char(ch));
    }
    assert_eq!(
        c.handle_key(Key::Char('\n')),
        Action::Run(Command::Edit("notes.txt".to_string()))
    );
    let ed = c.editor.as_ref().unwrap();
    assert_eq!(ed.filepath, "/docs/notes.txt");
    assert_eq!(ed.lines, vec!["one".to_string(), "two".to_string()]);
    assert!(c.editor_active());
}

#[test]
fn other_commands_leave_editor_closed() {
    let mut c = Console::new();
    for ch in "reboot".chars() {
        c.handle_key(Key::Char(ch));
    }
    assert_eq!(c.handle_key(Key::Char('\n')), Action::Run(Command::Reboot));
    assert!(!c.editor_active());
}

fn feed(c: &mut Console, d: &mut KeyDecoder, bytes: &[u8]) -> Vec<(Option<Key>, Option<Action>)> {
    bytes.iter().map(|b| c.handle_scancode(d, *b)).filter(|r| r.0.is_some()).collect()
}

#[test]
fn scancodes_typed_into_shell() {
    let mut c = Console::new();
    let mut d = KeyDecoder::new();
    // "hi" then Backspace then Enter, each key pressed and released.
    let got = feed(&mut c, &mut d, &[0x23, 0xA3, 0x17, 0x97, 0x0E, 0x8E]);
    assert_eq!(
        got,
        vec![
            (Some(Key::Char('h')), Some(Action::Echo('h'))),
            (Some(Key::Char('i')), Some(Action::Echo('i'))),
            (Some(Key::Char('\u{8}')), Some(Action::Erase)),
        ]
    );
    assert_eq!(c.input_buffer, "h");
    let got = feed(&mut c, &mut d, &[0x1C, 0x9C]);
    assert_eq!(got, vec![(Some(Key::Char('\n')), Some(Action::Run(Command::Unknown("h".to_string()))))]);
}

#[test]
fn scancodes_in_editor() {
    let mut c = Console::new();
    let mut d = KeyDecoder::new();
    c.open_editor("/f");
    // A release while editing is not decoded and changes nothing.
    assert_eq!(c.handle_scancode(&mut d, 0x9E), (None, None));
    let got = feed(&mut c, &mut d, &[0x1E, 0x9E, 0xE0, 0x4B, 0xE0, 0xCB]);
    assert_eq!(
        got,
        vec![
            (Some(Key::Char('a')), Some(Action::Redraw)),
            (Some(Key::ArrowLeft), Some(Action::Redraw)),
        ]
    );
    assert_eq!(c.editor.as_ref().unwrap().lines, vec!["a".to_string()]);
    assert_eq!(c.editor.as_ref().unwrap().cursor_col, 0);
}

#[test]
fn scancode_refused_where_handling_would_fail() {
    let mut c = Console::new();
    let mut d = KeyDecoder::new();
    c.open_editor("/f");
    assert_eq!(c.handle_key(Key::Char('é')), Action::Redraw);
    let before = c.editor.as_ref().unwrap().lines.clone();
    assert_eq!(c.handle_scancode(&mut d, 0x1E), (Some(Key::Char('a')), None));
    assert_eq!(c.editor.as_ref().unwrap().lines, before);
}

#[test]
fn release_dropped_while_editing_keeps_shift_held() {
    let mut c = Console::new();
    let mut d = KeyDecoder::new();
    c.open_editor("/f");
    // Left Shift pressed, then released: the release is dropped while the
    // editor is open, so the decoder still holds Shift for the next key.
    assert_eq!(c.handle_scancode(&mut d, 0x2A), (Some(Key::Other), Some(Action::Nothing)));
    assert_eq!(c.handle_scancode(&mut d, 0xAA), (None, None));
    assert_eq!(c.handle_scancode(&mut d, 0x1E), (Some(Key::Char('A')), Some(Action::Redraw)));
    assert_eq!(c.editor.as_ref().unwrap().lines, vec!["A".to_string()]);
}

#[test]
fn shift_release_decoded_in_shell() {
    let mut c = Console::new();
    let mut d = KeyDecoder::new();
    // In the shell every event is decoded, so the Shift release counts.
    let got = feed(&mut c, &mut d, &[0x2A, 0xAA, 0x1E, 0x9E]);
    assert_eq!(
        got,
        vec![(Some(Key::Other), Some(Action::Nothing)), (Some(Key::Char('a')), Some(Action::Echo('a')))]
    );
    assert_eq!(c.input_buffer, "a");
}

#[test]
fn handle_event_drops_release_in_editor() {
    let mut c = Console::new();
    let mut d = KeyDecoder::new();
    c.open_editor("/f");
    let up = KeyEvent::new(KeyCode::A, KeyState::Up);
    assert_eq!(c.handle_event(&mut d, up), (None, None));
    assert_eq!(c.editor.as_ref().unwrap().lines, vec![String::new()]);
    let down = KeyEvent::new(KeyCode::A, KeyState::Down);
    assert_eq!(c.handle_event(&mut d, down), (Some(Key::Char('a')), Some(Action::Redraw)));
    assert_eq!(c.editor.as_ref().unwrap().lines, vec!["a".to_string()]);
}

#[test]
fn handle_event_in_shell() {
    let mut c = Console::new();
    let mut d = KeyDecoder::new();
    let down = KeyEvent::new(KeyCode::B, KeyState::Down);
    assert_eq!(c.handle_event(&mut d, down), (Some(Key::Char('b')), Some(Action::Echo('b'))));
    let up = KeyEvent::new(KeyCode::B, KeyState::Up);
    assert_eq!(c.handle_event(&mut d, up), (None, None));
    assert_eq!(c.input_buffer, "b");
}

#[test]
fn key_down_test() {
    assert!(is_key_down(&KeyEvent::new(KeyCode::A, KeyState::Down)));
    assert!(!is_key_down(&KeyEvent::new(KeyCode::A, KeyState::Up)));
    assert!(!is_key_down(&KeyEvent::new(KeyCode::A, KeyState::SingleShot)));
}

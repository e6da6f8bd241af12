use palladiumos::editor::{open, save, Editor, EDIT_ROWS, SCREEN_COLS};
use palladiumos::fdfs::Fdfs;

fn lines(ed: &Editor) -> Vec<&str> {
    ed.lines.iter().map(|l| l.as_str()).collect()
}

#[test]
fn new_on_empty_content_has_one_empty_line() {
    let ed = Editor::new("/a.txt", "");
    assert_eq!(lines(&ed), vec![""]);
    assert_eq!((ed.cursor_row, ed.cursor_col, ed.scroll_offset), (0, 0, 0));
    assert_eq!(ed.filepath, "/a.txt");
    assert!(!ed.dirty);
}

#[test]
fn new_splits_like_str_lines() {
    assert_eq!(lines(&Editor::new("/f", "a\nb")), vec!["a", "b"]);
    assert_eq!(lines(&Editor::new("/f", "a\r\nb\n")), vec!["a", "b"]);
    assert_eq!(lines(&Editor::new("/f", "a\n\nb")), vec!["a", "", "b"]);
    assert_eq!(lines(&Editor::new("/f", "\n")), vec![""]);
    assert_eq!(lines(&Editor::new("/f", "a\rb")), vec!["a\rb"]);
    for s in ["x\r\ny\n", "one\ntwo\r\n\nthree", "\r\n\r\n", "a\r"] {
        let expect: Vec<&str> = s.lines().collect();
        assert_eq!(lines(&Editor::new("/f", s)), expect);
    }
}

#[test]
fn insert_char_at_cursor() {
    let mut ed = Editor::new("/f", "ac");
    ed.move_right();
    ed.insert_char('b');
    assert_eq!(lines(&ed), vec!["abc"]);
    assert_eq!(ed.cursor_col, 2);
    assert!(ed.dirty);
}

#[test]
fn insert_non_ascii_char_moves_one_byte() {
    let mut ed = Editor::new("/f", "");
    ed.insert_char('é');
    assert_eq!(lines(&ed), vec!["é"]);
    assert_eq!(ed.cursor_col, 1);
}

#[test]
fn backspace_deletes_before_cursor() {
    let mut ed = Editor::new("/f", "abc");
    ed.move_right();
    ed.move_right();
    ed.backspace();
    assert_eq!(lines(&ed), vec!["ac"]);
    assert_eq!(ed.cursor_col, 1);
    assert!(ed.dirty);
}

#[test]
fn backspace_at_start_joins_lines() {
    let mut ed = Editor::new("/f", "ab\ncd");
    ed.move_down();
    ed.backspace();
    assert_eq!(lines(&ed), vec!["abcd"]);
    assert_eq!((ed.cursor_row, ed.cursor_col), (0, 2));
}

#[test]
fn backspace_at_very_start_only_marks_dirty() {
    let mut ed = Editor::new("/f", "ab");
    ed.backspace();
    assert_eq!(lines(&ed), vec!["ab"]);
    assert_eq!((ed.cursor_row, ed.cursor_col), (0, 0));
    assert!(ed.dirty);
}

#[test]
fn backspace_undoes_insert() {
    let mut ed = Editor::new("/f", "hello\nworld");
    ed.move_down();
    ed.move_right();
    let before: Vec<String> = ed.lines.clone();
    ed.insert_char('Z');
    ed.backspace();
    assert_eq!(ed.lines, before);
    assert_eq!((ed.cursor_row, ed.cursor_col), (1, 1));
}

#[test]
fn newline_splits_line() {
    let mut ed = Editor::new("/f", "hello");
    ed.move_right();
    ed.move_right();
    ed.newline();
    assert_eq!(lines(&ed), vec!["he", "llo"]);
    assert_eq!((ed.cursor_row, ed.cursor_col), (1, 0));
    ed.backspace();
    assert_eq!(lines(&ed), vec!["hello"]);
    assert_eq!((ed.cursor_row, ed.cursor_col), (0, 2));
}

#[test]
fn moves_clamp_to_line_length() {
    let mut ed = Editor::new("/f", "long line\nab\nlonger line");
    for _ in 0..9 {
        ed.move_right();
    }
    assert_eq!(ed.cursor_col, 9);
    ed.move_down();
    assert_eq!((ed.cursor_row, ed.cursor_col), (1, 2));
    ed.move_down();
    assert_eq!((ed.cursor_row, ed.cursor_col), (2, 2));
    ed.move_down();
    assert_eq!((ed.cursor_row, ed.cursor_col), (2, 2));
    ed.move_up();
    ed.move_up();
    ed.move_up();
    assert_eq!((ed.cursor_row, ed.cursor_col), (0, 2));
    assert!(!ed.dirty);
}

#[test]
fn left_and_right_wrap_lines() {
    let mut ed = Editor::new("/f", "ab\ncd");
    ed.move_left();
    assert_eq!((ed.cursor_row, ed.cursor_col), (0, 0));
    ed.move_right();
    ed.move_right();
    ed.move_right();
    assert_eq!((ed.cursor_row, ed.cursor_col), (1, 0));
    ed.move_left();
    assert_eq!((ed.cursor_row, ed.cursor_col), (0, 2));
    for _ in 0..5 {
        ed.move_right();
    }
    assert_eq!((ed.cursor_row, ed.cursor_col), (1, 2));
}

#[test]
fn window_follows_cursor() {
    let mut ed = Editor::new("/f", "");
    for _ in 0..EDIT_ROWS {
        ed.newline();
    }
    assert_eq!(ed.cursor_row, EDIT_ROWS);
    assert_eq!(ed.scroll_offset, 1);
    for _ in 0..EDIT_ROWS {
        ed.move_up();
    }
    assert_eq!(ed.cursor_row, 0);
    assert_eq!(ed.scroll_offset, 0);
    for _ in 0..EDIT_ROWS {
        ed.move_down();
    }
    assert_eq!(ed.scroll_offset, 1);
}

#[test]
fn serialize_joins_lines() {
    let ed = Editor::new("/f", "a\nb\n\nc");
    assert_eq!(ed.serialize(), "a\nb\n\nc");
    assert_eq!(Editor::new("/f", "").serialize(), "");
    assert_eq!(Editor::new("/f", "x\n").serialize(), "x");
}

#[test]
fn open_reads_file_or_starts_empty() {
    let mut fs = Fdfs::new();
    assert_eq!(fs.write_file("/notes.txt", "one\ntwo"), Ok(()));
    let ed = open(&fs, "/notes.txt");
    assert_eq!(lines(&ed), vec!["one", "two"]);
    assert_eq!(ed.filepath, "/notes.txt");
    let fresh = open(&fs, "/new.txt");
    assert_eq!(lines(&fresh), vec![""]);
}

#[test]
fn save_writes_text_and_clears_dirty() {
    let mut fs = Fdfs::new();
    let mut ed = open(&fs, "/new.txt");
    ed.insert_char('h');
    ed.insert_char('i');
    ed.newline();
    ed.insert_char('!');
    assert_eq!(save(&mut fs, &mut ed), Ok(()));
    assert!(!ed.dirty);
    assert_eq!(fs.read_file("/new.txt"), Ok("hi\n!".to_string()));
    let again = open(&fs, "/new.txt");
    assert_eq!(again.lines, ed.lines);
}

#[test]
fn save_failure_keeps_dirty() {
    let mut fs = Fdfs::new();
    let mut ed = open(&fs, "/missing/dir/file.txt");
    ed.insert_char('x');
    assert_eq!(save(&mut fs, &mut ed), Err("Parent directory not found"));
    assert!(ed.dirty);
}

#[test]
fn render_frame_rows_and_status() {
    let mut ed = Editor::new("/doc.txt", "first\nsecond");
    ed.move_down();
    ed.move_right();
    ed.insert_char('X');
    assert!(ed.can_render());
    let f = ed.render_frame();
    assert_eq!(f.rows.len(), EDIT_ROWS);
    assert_eq!(f.rows[0], "first");
    assert_eq!(f.rows[1], "sXecond");
    assert_eq!(f.rows[2], "~");
    assert_eq!(f.rows[EDIT_ROWS - 1], "~");
    let status = " */doc.txt | Ln 2/2 Col 3 | Ctrl+S save  Ctrl+Q quit";
    assert_eq!(f.status, format!("{:<80}", status));
    assert_eq!(f.status.len(), SCREEN_COLS);
    assert_eq!((f.cursor_row, f.cursor_col), (1, 2));
}

#[test]
fn render_frame_cuts_long_lines_and_status() {
    let long = "x".repeat(100);
    let path = format!("/{}", "p".repeat(90));
    let ed = Editor::new(&path, &long);
    assert!(ed.can_render());
    let f = ed.render_frame();
    assert_eq!(f.rows[0], "x".repeat(80));
    let status = format!("  {} | Ln 1/1 Col 1 | Ctrl+S save  Ctrl+Q quit", path);
    assert_eq!(f.status, status[..80].to_string());
}

#[test]
fn render_refused_when_cut_splits_a_character() {
    let line = format!("{}é", "x".repeat(79));
    let ed = Editor::new("/f", &line);
    assert!(!ed.can_render());
}

#[test]
fn render_scrolled_window() {
    let text: Vec<String> = (0..30).map(|i| format!("line {}", i)).collect();
    let mut ed = Editor::new("/f", &text.join("\n"));
    for _ in 0..26 {
        ed.move_down();
    }
    assert_eq!(ed.scroll_offset, 3);
    let f = ed.render_frame();
    assert_eq!(f.rows[0], "line 3");
    assert_eq!(f.rows[EDIT_ROWS - 1], "line 26");
    assert_eq!(f.cursor_row, 23);
}

#[test]
fn status_shows_multi_digit_numbers() {
    let text: Vec<String> = (0..120).map(|i| format!("{}", i)).collect();
    let mut ed = Editor::new("/n", &text.join("\n"));
    for _ in 0..104 {
        ed.move_down();
    }
    ed.move_right();
    ed.move_right();
    let f = ed.render_frame();
    let status = "  /n | Ln 105/120 Col 3 | Ctrl+S save  Ctrl+Q quit";
    assert_eq!(f.status, format!("{:<80}", status));
}

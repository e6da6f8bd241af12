//! What each key does: typed into the shell's input line, or, while a file is
//! open, to the editor. The caller reads keys and carries out the actions.
use vstd::prelude::*;
use vstd::utf8::is_char_boundary;
use crate::editor::{
    backspace_post, insert_char_post, move_down_post, move_left_post, move_right_post,
    move_up_post, newline_post, open, opened_at, save, Editor,
};
use crate::filesystem::{resolve_path, resolve_path_spec};
use crate::keyboard::{decodes_as, is_key_down, KeyDecoder};
use pc_keyboard::{KeyCode, KeyEvent, KeyState};
use crate::fdfs::{write_file_spec, Fdfs};
use crate::shell::{command_spec, is_control, is_control_spec, parse_command, Command};
use crate::text::{join_with, string_pop, string_push};

verus! {

/// A decoded key press.
#[derive(Debug, Clone, Copy, PartialEq, Eq)]
pub enum Key {
    /// A key that stands for a character (control characters included:
    /// `'\n'` is Enter, `'\u{8}'` Backspace, `'\u{13}'` Ctrl+S, `'\u{11}'` Ctrl+Q).
    Char(char),
    ArrowUp,
    ArrowDown,
    ArrowLeft,
    ArrowRight,
    /// Any other key.
    Other,
}

/// What the caller has to show after a key.
#[derive(Debug, PartialEq, Eq)]
pub enum Action {
    /// Nothing visible happens.
    Nothing,
    /// Enter in the shell: end the input line, run this command, show a new prompt.
    Run(Command),
    /// Take the last typed character off the screen.
    Erase,
    /// Show this typed character.
    Echo(char),
    /// The editor changed: draw it again.
    Redraw,
    /// The editor saved (or failed to, with this message); draw it again.
    Saved(Result<(), &'static str>),
    /// The editor closed: clear the screen and show the prompt.
    Closed,
}

/// The kernel's interactive state: the filesystem, the working directory, the
/// line being typed into the shell and the open editor, if any.
pub struct Console {
    pub fs: Fdfs,
    pub cwd: String,
    pub input_buffer: String,
    pub editor: Option<Editor>,
}

/// Whether the editor can take `key` without one of its string operations
/// failing: the edits at the cursor need the cursor column (for Backspace,
/// the byte before it) to start a character.
pub open spec fn edit_allowed(ed: Editor, key: Key) -> bool {
    let b = ed.line_bytes(ed.cursor_row as int);
    let col = ed.cursor_col as int;
    match key {
        Key::Char(c) => if c == '\u{13}' || c == '\u{11}' {
            true
        } else if c == '\n' {
            is_char_boundary(b, col)
        } else if c == '\u{8}' {
            col > 0 ==> is_char_boundary(b, col - 1)
        } else if !is_control_spec(c) {
            is_char_boundary(b, col)
        } else {
            true
        },
        _ => true,
    }
}

/// The shell's answer to `key`: Enter runs the typed line (`edit` opens the
/// file named relative to the working directory), Backspace takes back one
/// character (if any), a printable character is typed, other keys do nothing.
pub open spec fn shell_step(pre: Console, post: Console, key: Key, a: Action) -> bool {
    &&& post.fs == pre.fs
    &&& post.cwd == pre.cwd
    &&& (post.editor is None || key == Key::Char('\n'))
    &&& match key {
        Key::Char(c) => if c == '\n' {
            &&& a matches Action::Run(cmd) && command_spec(pre.input_buffer@, cmd)
            &&& post.input_buffer@ == Seq::<char>::empty()
            &&& match a->Run_0 {
                Command::Edit(p) => post.editor matches Some(ed) && opened_at(
                    pre.fs@,
                    resolve_path_spec(pre.cwd@, p@),
                    ed,
                ),
                _ => post.editor is None,
            }
        } else if c == '\u{8}' {
            if pre.input_buffer@.len() > 0 {
                &&& a is Erase
                &&& post.input_buffer@ == pre.input_buffer@.drop_last()
            } else {
                &&& a is Nothing
                &&& post.input_buffer@ == pre.input_buffer@
            }
        } else if !is_control_spec(c) {
            &&& a == Action::Echo(c)
            &&& post.input_buffer@ == pre.input_buffer@.push(c)
        } else {
            &&& a is Nothing
            &&& post.input_buffer@ == pre.input_buffer@
        },
        _ => {
            &&& a is Nothing
            &&& post.input_buffer@ == pre.input_buffer@
        },
    }
}

/// The editor's answer to `key`: Ctrl+S saves, Ctrl+Q closes, Enter breaks the
/// line, Backspace deletes, a printable character is inserted, the arrows move
/// the cursor; anything else does nothing.
pub open spec fn editor_step(pre: Console, post: Console, key: Key, a: Action) -> bool {
    let ed = pre.editor->0;
    &&& post.cwd == pre.cwd
    &&& post.input_buffer == pre.input_buffer
    &&& if key == Key::Char('\u{13}') {
        let (r, after) = write_file_spec(pre.fs@, ed.filepath@, join_with(ed.text(), '\n'));
        &&& a == Action::Saved(r)
        &&& post.fs@ == after
        &&& post.editor matches Some(e) && e.lines == ed.lines && e.cursor_row == ed.cursor_row
            && e.cursor_col == ed.cursor_col && e.scroll_offset == ed.scroll_offset && e.filepath
            == ed.filepath && e.dirty == (ed.dirty && r is Err)
    } else if key == Key::Char('\u{11}') {
        &&& a is Closed
        &&& post.fs == pre.fs
        &&& post.editor is None
    } else {
        &&& post.fs == pre.fs
        &&& post.editor is Some
        &&& if key == Key::Char('\n') {
            a is Redraw && newline_post(ed, post.editor->0)
        } else if key == Key::Char('\u{8}') {
            a is Redraw && backspace_post(ed, post.editor->0)
        } else if key is Char && !is_control_spec(key->Char_0) {
            a is Redraw && insert_char_post(ed, post.editor->0, key->Char_0)
        } else if key is ArrowUp {
            a is Redraw && move_up_post(ed, post.editor->0)
        } else if key is ArrowDown {
            a is Redraw && move_down_post(ed, post.editor->0)
        } else if key is ArrowLeft {
            a is Redraw && move_left_post(ed, post.editor->0)
        } else if key is ArrowRight {
            a is Redraw && move_right_post(ed, post.editor->0)
        } else {
            a is Nothing && post.editor == pre.editor
        }
    }
}

/// What handling the decoded key `r.0` did: no key leaves the console alone;
/// a key that can be handled (see `key_allowed`) gets the shell's or the
/// editor's answer `r.1`; any other key gets no action and changes nothing.
pub open spec fn key_post(pre: Console, post: Console, r: (Option<Key>, Option<Action>)) -> bool {
    match r.0 {
        None => r.1 is None && post == pre,
        Some(k) => if pre.key_allowed(k) {
            &&& r.1 is Some
            &&& pre.editor is None ==> shell_step(pre, post, k, r.1->0)
            &&& pre.editor is Some ==> editor_step(pre, post, k, r.1->0)
        } else {
            r.1 is None && post == pre
        },
    }
}

/// What handling the key event `ev` did, with `d0` and `d1` the decoder's
/// record of decoded events before and after: while the editor is open, an
/// event other than a key press is dropped (nothing changes and no key comes
/// back); otherwise the event is decoded, the key that came out is the key
/// returned, and it is handled as `key_post` says.
pub open spec fn event_post(
    pre: Console,
    post: Console,
    d0: Seq<(KeyEvent, Option<Key>)>,
    d1: Seq<(KeyEvent, Option<Key>)>,
    ev: KeyEvent,
    r: (Option<Key>, Option<Action>),
) -> bool {
    if pre.editor is Some && ev.state != KeyState::Down {
        &&& r == (None::<Key>, None::<Action>)
        &&& post == pre
        &&& d1 == d0
    } else {
        &&& d1 == d0.push((ev, r.0))
        &&& key_post(pre, post, r)
    }
}

impl Console {
    /// The filesystem and the open editor, if any, keep their invariants.
    pub open spec fn wf(&self) -> bool {
        &&& self.fs.wf()
        &&& self.editor matches Some(ed) ==> ed.wf()
    }

    /// Whether `key` can be handled now (see `edit_allowed`).
    pub open spec fn key_allowed(&self, key: Key) -> bool {
        self.editor matches Some(ed) ==> edit_allowed(ed, key)
    }

    /// A console after boot: an empty filesystem, `/` as working directory,
    /// nothing typed and no editor.
    pub fn new() -> (c: Self)
        ensures
            c.wf(),
            c.fs@ == Fdfs::new_spec(),
            c.cwd@ == "/"@,
            c.input_buffer@ == Seq::<char>::empty(),
            c.editor is None,
    {
        Console {
            fs: Fdfs::new(),
            cwd: "/".to_owned(),
            input_buffer: String::new(),
            editor: None,
        }
    }

    /// Whether keys go to the editor.
    pub fn editor_active(&self) -> (b: bool)
        ensures
            b == self.editor is Some,
    {
        self.editor.is_some()
    }

    /// Whether a key event is to be decoded at all: while the editor is open,
    /// only key presses are (releases are ignored).
    pub fn accepts_event(&self, key_down: bool) -> (b: bool)
        ensures
            b == (self.editor is None || key_down),
    {
        self.editor.is_none() || key_down
    }

    /// Whether `key` can be handled now without an editor string operation failing.
    pub fn can_handle(&self, key: &Key) -> (b: bool)
        requires
            self.wf(),
        ensures
            b == self.key_allowed(*key),
    {
        match &self.editor {
            None => true,
            Some(ed) => {
                let line = ed.lines[ed.cursor_row].as_str();
                let col = ed.cursor_col;
                match key {
                    Key::Char(c) => {
                        let c = *c;
                        if c == '\u{13}' || c == '\u{11}' {
                            true
                        } else if c == '\n' {
                            line.is_char_boundary(col)
                        } else if c == '\u{8}' {
                            col == 0 || line.is_char_boundary(col - 1)
                        } else if !is_control(c) {
                            line.is_char_boundary(col)
                        } else {
                            true
                        }
                    },
                    _ => true,
                }
            },
        }
    }

    /// Opens the file at `filepath` in the editor; keys go to it from now on.
    pub fn open_editor(&mut self, filepath: &str)
        requires
            old(self).wf(),
        ensures
            final(self).wf(),
            final(self).fs == old(self).fs,
            final(self).cwd == old(self).cwd,
            final(self).input_buffer == old(self).input_buffer,
            final(self).editor matches Some(ed) && opened_at(old(self).fs@, filepath@, ed),
    {
        let ed = open(&self.fs, filepath);
        self.editor = Some(ed);
    }

    /// Handles one byte from the keyboard: feeds it to the decoder and, when it
    /// completes a key event, hands the event on (see `handle_event`).
    pub fn handle_scancode(&mut self, dec: &mut KeyDecoder, byte: u8) -> (r: (Option<Key>, Option<Action>))
        requires
            old(self).wf(),
        ensures
            final(self).wf(),
            final(dec).fed() == old(dec).fed().push(byte),
            final(dec).events().len() == old(dec).events().len() + 1,
            final(dec).events() == old(dec).events().push(final(dec).events().last()),
            match final(dec).events().last() {
                None => r == (None::<Key>, None::<Action>) && *final(self) == *old(self)
                    && final(dec).decoded() == old(dec).decoded(),
                Some(ev) => decodes_as(ev, r.0) && event_post(
                    *old(self),
                    *final(self),
                    old(dec).decoded(),
                    final(dec).decoded(),
                    ev,
                    r,
                ),
            },
    {
        match dec.add_byte(byte) {
            Some(ev) => self.handle_event(dec, ev),
            None => (None, None),
        }
    }

    /// Handles one key event: while the editor is open only key presses are
    /// decoded (releases are dropped, and the decoder is left alone); otherwise
    /// the event is decoded and the key, if any, handed over. A key comes back
    /// without an action when handling it would fail (see `key_allowed`); the
    /// console is then unchanged.
    pub fn handle_event(&mut self, dec: &mut KeyDecoder, ev: KeyEvent) -> (r: (Option<Key>, Option<Action>))
        requires
            old(self).wf(),
        ensures
            final(self).wf(),
            final(dec).fed() == old(dec).fed(),
            final(dec).events() == old(dec).events(),
            decodes_as(ev, r.0),
            event_post(*old(self), *final(self), old(dec).decoded(), final(dec).decoded(), ev, r),
    {
        if !self.accepts_event(is_key_down(&ev)) {
            return (None, None);
        }
        let key = match dec.process_keyevent(ev) {
            Some(k) => k,
            None => return (None, None),
        };
        if !self.can_handle(&key) {
            return (Some(key), None);
        }
        let a = self.handle_key(key);
        (Some(key), Some(a))
    }

    /// Handles one key: to the editor while it is open, to the shell otherwise.
    pub fn handle_key(&mut self, key: Key) -> (a: Action)
        requires
            old(self).wf(),
            old(self).key_allowed(key),
        ensures
            final(self).wf(),
            old(self).editor is None ==> shell_step(*old(self), *final(self), key, a),
            old(self).editor is Some ==> editor_step(*old(self), *final(self), key, a),
    {
        if self.editor.is_some() {
            self.editor_key(key)
        } else {
            self.shell_key(key)
        }
    }

    fn shell_key(&mut self, key: Key) -> (a: Action)
        requires
            old(self).wf(),
            old(self).editor is None,
        ensures
            final(self).wf(),
            shell_step(*old(self), *final(self), key, a),
    {
        match key {
            Key::Char(c) => {
                if c == '\n' {
                    let cmd = parse_command(self.input_buffer.as_str());
                    self.input_buffer = String::new();
                    if let Command::Edit(p) = &cmd {
                        let path = resolve_path(self.cwd.as_str(), p.as_str());
                        self.open_editor(path.as_str());
                    }
                    Action::Run(cmd)
                } else if c == '\u{8}' {
                    match string_pop(&mut self.input_buffer) {
                        Some(_) => Action::Erase,
                        None => Action::Nothing,
                    }
                } else if !is_control(c) {
                    string_push(&mut self.input_buffer, c);
                    Action::Echo(c)
                } else {
                    Action::Nothing
                }
            },
            _ => Action::Nothing,
        }
    }

    fn editor_key(&mut self, key: Key) -> (a: Action)
        requires
            old(self).wf(),
            old(self).editor is Some,
            old(self).key_allowed(key),
        ensures
            final(self).wf(),
            editor_step(*old(self), *final(self), key, a),
    {
        let mut ed = self.editor.take().unwrap();
        let a = match key {
            Key::Char(c) => {
                if c == '\u{13}' {
                    let r = save(&mut self.fs, &mut ed);
                    Action::Saved(r)
                } else if c == '\u{11}' {
                    return Action::Closed;
                } else if c == '\n' {
                    ed.newline();
                    Action::Redraw
                } else if c == '\u{8}' {
                    ed.backspace();
                    Action::Redraw
                } else if !is_control(c) {
                    ed.insert_char(c);
                    Action::Redraw
                } else {
                    Action::Nothing
                }
            },
            Key::ArrowUp => {
                ed.move_up();
                Action::Redraw
            },
            Key::ArrowDown => {
                ed.move_down();
                Action::Redraw
            },
            Key::ArrowLeft => {
                ed.move_left();
                Action::Redraw
            },
            Key::ArrowRight => {
                ed.move_right();
                Action::Redraw
            },
            Key::Other => Action::Nothing,
        };
        self.editor = Some(ed);
        a
    }
}

/// The shell's input line after the keys `keys` (none of them Enter) were typed
/// into `line`: a printable character is appended, Backspace takes back the last
/// character if there is one, anything else leaves the line alone.
pub open spec fn typed_line(line: Seq<char>, keys: Seq<Key>) -> Seq<char>
    decreases keys.len(),
{
    if keys.len() == 0 {
        line
    } else {
        let l = typed_line(line, keys.drop_last());
        match keys.last() {
            Key::Char(c) => if c == '\u{8}' {
                if l.len() > 0 {
                    l.drop_last()
                } else {
                    l
                }
            } else if !is_control_spec(c) {
                l.push(c)
            } else {
                l
            },
            _ => l,
        }
    }
}

/// Typing a sequence of keys into the shell: after the first `i` keys (none of
/// them Enter) the input line is `typed_line` of them, and no editor opens.
pub proof fn law_shell_typing(cs: Seq<Console>, keys: Seq<Key>, acts: Seq<Action>)
    requires
        cs.len() == keys.len() + 1,
        acts.len() == keys.len(),
        cs[0].editor is None,
        forall|i: int| 0 <= i < keys.len() ==> #[trigger] keys[i] != Key::Char('\n'),
        forall|i: int| 0 <= i < keys.len() ==> shell_step(#[trigger] cs[i], cs[i + 1], keys[i], acts[i]),
    ensures
        forall|i: int|
            0 <= i <= keys.len() ==> (#[trigger] cs[i]).input_buffer@ == typed_line(
                cs[0].input_buffer@,
                keys.take(i),
            ) && cs[i].editor is None,
    decreases keys.len(),
{
    if keys.len() > 0 {
        let n = keys.len() - 1;
        law_shell_typing(cs.drop_last(), keys.drop_last(), acts.drop_last());
        assert forall|i: int| 0 <= i <= keys.len() implies (#[trigger] cs[i]).input_buffer@ == typed_line(
            cs[0].input_buffer@,
            keys.take(i),
        ) && cs[i].editor is None by {
            if i < keys.len() {
                assert(cs.drop_last()[i] == cs[i]);
                assert(keys.drop_last().take(i) == keys.take(i));
            } else {
                assert(cs.drop_last()[n] == cs[n]);
                assert(keys.drop_last().take(n) == keys.take(n));
                assert(keys.take(i).drop_last() == keys.take(n));
                assert(keys.take(i).last() == keys[n]);
                assert(shell_step(cs[n], cs[n + 1], keys[n], acts[n]));
            }
        }
    }
}

/// Enter runs exactly the line that the keys before it typed.
pub proof fn law_enter_runs_typed_line(
    cs: Seq<Console>,
    keys: Seq<Key>,
    acts: Seq<Action>,
    done: Console,
    a: Action,
)
    requires
        cs.len() == keys.len() + 1,
        acts.len() == keys.len(),
        cs[0].editor is None,
        forall|i: int| 0 <= i < keys.len() ==> #[trigger] keys[i] != Key::Char('\n'),
        forall|i: int| 0 <= i < keys.len() ==> shell_step(#[trigger] cs[i], cs[i + 1], keys[i], acts[i]),
        shell_step(cs.last(), done, Key::Char('\n'), a),
    ensures
        a matches Action::Run(cmd) && command_spec(typed_line(cs[0].input_buffer@, keys), cmd),
        done.input_buffer@ == Seq::<char>::empty(),
{
    law_shell_typing(cs, keys, acts);
    assert(keys.take(keys.len() as int) == keys);
    assert(cs.last() == cs[keys.len() as int]);
}

/// In the shell, Backspace takes back a typed character: typing a printable
/// character and then pressing Backspace leaves the input line as it was.
pub proof fn law_shell_backspace_undoes_typing(
    a: Console,
    b: Console,
    d: Console,
    c: char,
    x: Action,
    y: Action,
)
    requires
        a.editor is None,
        !is_control_spec(c),
        shell_step(a, b, Key::Char(c), x),
        shell_step(b, d, Key::Char('\u{8}'), y),
    ensures
        d.input_buffer@ == a.input_buffer@,
        y is Erase,
{
    assert(a.input_buffer@.push(c).drop_last() == a.input_buffer@);
}

/// The arrow keys move the editor's cursor: pressing an arrow while a file is
/// open gives that arrow key, a redraw, and the cursor moved one step that way
/// (up and down keep the column where the line allows, left and right step
/// over one byte or across a line end).
pub proof fn law_arrows_move_cursor(
    pre: Console,
    post: Console,
    d0: Seq<(KeyEvent, Option<Key>)>,
    d1: Seq<(KeyEvent, Option<Key>)>,
    ev: KeyEvent,
    r: (Option<Key>, Option<Action>),
)
    requires
        pre.wf(),
        pre.editor is Some,
        ev.state == KeyState::Down,
        decodes_as(ev, r.0),
        event_post(pre, post, d0, d1, ev, r),
    ensures
        ev.code == KeyCode::ArrowUp ==> r == (Some(Key::ArrowUp), Some(Action::Redraw))
            && move_up_post(pre.editor->0, post.editor->0),
        ev.code == KeyCode::ArrowDown ==> r == (Some(Key::ArrowDown), Some(Action::Redraw))
            && move_down_post(pre.editor->0, post.editor->0),
        ev.code == KeyCode::ArrowLeft ==> r == (Some(Key::ArrowLeft), Some(Action::Redraw))
            && move_left_post(pre.editor->0, post.editor->0),
        ev.code == KeyCode::ArrowRight ==> r == (Some(Key::ArrowRight), Some(Action::Redraw))
            && move_right_post(pre.editor->0, post.editor->0),
{
}

} // verus!

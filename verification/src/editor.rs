//! The full-screen text editor: a buffer of lines, a cursor at a byte column,
//! and a window of `EDIT_ROWS` rows that follows the cursor.
use vstd::prelude::*;
use vstd::utf8::*;
use crate::fdfs::{read_file_spec, write_file_spec, Fdfs, NodeView};
use crate::filesystem::{read_file, write_file};
use crate::text::{
    bytes_of, char_width_at, decimal, join_with, lemma_ascii_char_bytes, lemma_boundary_in_range,
    lemma_bytes_of_add, lemma_bytes_of_char, lemma_char_width_fits, lines_of, split_lines,
    split_parts, string_insert, byte_len, string_push, string_push_str, string_remove,
    string_split_off, usize_to_decimal, views,
};

verus! {

broadcast use vstd::utf8::encode_utf8_valid_utf8;

/// Number of text rows the editor shows at once.
pub const EDIT_ROWS: usize = 24;

/// Width of the screen in columns.
pub const SCREEN_COLS: usize = 80;

/// A file open for editing.
pub struct Editor {
    pub lines: Vec<String>,
    pub cursor_col: usize,
    pub cursor_row: usize,
    pub scroll_offset: usize,
    pub filepath: String,
    pub dirty: bool,
}

impl Editor {
    /// The text, one character sequence per line.
    pub open spec fn text(&self) -> Seq<Seq<char>> {
        views(self.lines@)
    }

    /// The UTF-8 bytes of line `i`; the cursor column counts these bytes.
    pub open spec fn line_bytes(&self, i: int) -> Seq<u8> {
        bytes_of(self.lines@[i]@)
    }

    /// The editor's invariant: there is at least one line, the cursor stands on a
    /// line and within (or at the end of) its bytes, and the cursor row lies in
    /// the window that starts at `scroll_offset`.
    pub open spec fn wf(&self) -> bool {
        &&& self.lines@.len() >= 1
        &&& self.cursor_row < self.lines@.len()
        &&& self.cursor_col <= self.line_bytes(self.cursor_row as int).len()
        &&& self.scroll_offset <= self.cursor_row
        &&& self.cursor_row < self.scroll_offset + EDIT_ROWS
        &&& forall|i: int|
            0 <= i < self.lines@.len() ==> #[trigger] bytes_of(self.lines@[i]@).len() <= isize::MAX
    }

    /// The lines an editor opened on `content` holds: those of `str::lines`, or a
    /// single empty line for empty content.
    pub open spec fn initial_text(content: Seq<char>) -> Seq<Seq<char>> {
        if content.len() == 0 {
            seq![Seq::<char>::empty()]
        } else {
            lines_of(content)
        }
    }

    /// Opens an editor on `content` for the file at `filepath`, cursor at the start.
    pub fn new(filepath: &str, content: &str) -> (ed: Self)
        ensures
            ed.wf(),
            ed.text() == Self::initial_text(content@),
            ed.cursor_row == 0,
            ed.cursor_col == 0,
            ed.scroll_offset == 0,
            ed.filepath@ == filepath@,
            !ed.dirty,
    {
        let lines: Vec<String> = if content.is_empty() {
            let mut v: Vec<String> = Vec::new();
            v.push(String::new());
            assert(views(v@) =~= seq![Seq::<char>::empty()]);
            v
        } else {
            proof {
                lemma_lines_of_nonempty(content@);
            }
            split_lines(content)
        };
        Editor {
            lines,
            cursor_col: 0,
            cursor_row: 0,
            scroll_offset: 0,
            filepath: filepath.to_owned(),
            dirty: false,
        }
    }

    /// Inserts `c` at the cursor and moves the cursor one byte to the right.
    ///
    /// The cursor column must be a character boundary of its line (`String::insert`
    /// panics otherwise).
    pub fn insert_char(&mut self, c: char)
        requires
            old(self).wf(),
            is_char_boundary(old(self).line_bytes(old(self).cursor_row as int), old(self).cursor_col as int),
        ensures
            final(self).wf(),
            insert_char_post(*old(self), *final(self), c),
    {
        let row = self.cursor_row;
        let col = self.cursor_col;
        let ghost b = self.line_bytes(row as int);
        proof {
            lemma_boundary_in_range(b, col as int);
            lemma_bytes_of_char(c);
        }
        string_insert(&mut self.lines[row], col, c);
        assert(self.line_bytes(row as int).len() == b.len() + bytes_of(seq![c]).len());
        self.cursor_col = col + 1;
        self.dirty = true;
        assert(self.text() =~= old(self).text().update(row as int, self.text()[row as int]));
    }

    /// Deletes backwards: the character that starts one byte left of the cursor,
    /// or, at the start of a line, the line break before it (joining the line to
    /// the one above). Marks the buffer dirty in every case.
    ///
    /// When the cursor is not at the start of its line, the byte left of it must
    /// start a character (`String::remove` panics otherwise).
    pub fn backspace(&mut self)
        requires
            old(self).wf(),
            old(self).cursor_col > 0 ==> is_char_boundary(
                old(self).line_bytes(old(self).cursor_row as int),
                old(self).cursor_col - 1,
            ),
        ensures
            final(self).wf(),
            backspace_post(*old(self), *final(self)),
    {
        let row = self.cursor_row;
        let col = self.cursor_col;
        if col > 0 {
            let ghost b = self.line_bytes(row as int);
            proof {
                lemma_char_width_fits(b, col - 1);
            }
            string_remove(&mut self.lines[row], col - 1);
            self.cursor_col = col - 1;
            assert(self.text() =~= old(self).text().update(row as int, self.text()[row as int]));
        } else if row > 0 {
            let ghost t = self.text();
            let current_line = self.lines.remove(row);
            let prev_len = byte_len(&self.lines[row - 1]);
            string_push_str(&mut self.lines[row - 1], current_line.as_str());
            proof {
                lemma_bytes_of_add(t[row - 1], t[row as int]);
            }
            self.cursor_row = row - 1;
            self.cursor_col = prev_len;
            if self.cursor_row < self.scroll_offset {
                self.scroll_offset = self.cursor_row;
            }
            assert(self.text() =~= t.take(row - 1).push(t[row - 1] + t[row as int]) + t.skip(
                row + 1,
            ));
        }
        self.dirty = true;
    }

    /// Breaks the line at the cursor: the bytes after the cursor move to a new
    /// line below, and the cursor goes to the start of that line (scrolling the
    /// window by one row when the cursor would leave it).
    ///
    /// The cursor column must be a character boundary (`String::split_off` panics
    /// otherwise).
    pub fn newline(&mut self)
        requires
            old(self).wf(),
            is_char_boundary(old(self).line_bytes(old(self).cursor_row as int), old(self).cursor_col as int),
        ensures
            final(self).wf(),
            newline_post(*old(self), *final(self)),
    {
        let row = self.cursor_row;
        let col = self.cursor_col;
        assert(self.lines@.len() == self.lines.len());
        let ghost t = self.text();
        let ghost b = self.line_bytes(row as int);
        proof {
            lemma_boundary_in_range(b, col as int);
        }
        let rest = string_split_off(&mut self.lines[row], col);
        let ghost first = self.lines@[row as int]@;
        proof {
            encode_utf8_decode_utf8(first);
            encode_utf8_decode_utf8(rest@);
        }
        self.lines.insert(row + 1, rest);
        self.cursor_row = row + 1;
        self.cursor_col = 0;
        if self.cursor_row - self.scroll_offset >= EDIT_ROWS {
            self.scroll_offset = self.scroll_offset + 1;
        }
        self.dirty = true;
        assert(self.text() =~= t.take(row as int).push(decode_utf8(b.take(col as int))).push(
            decode_utf8(b.skip(col as int)),
        ) + t.skip(row + 1));
    }

    /// Moves the cursor up one line, keeping the column within that line and the
    /// window over the cursor.
    pub fn move_up(&mut self)
        requires
            old(self).wf(),
        ensures
            final(self).wf(),
            move_up_post(*old(self), *final(self)),
    {
        if self.cursor_row > 0 {
            self.cursor_row = self.cursor_row - 1;
            let line_len = byte_len(&self.lines[self.cursor_row]);
            if self.cursor_col > line_len {
                self.cursor_col = line_len;
            }
            if self.cursor_row < self.scroll_offset {
                self.scroll_offset = self.cursor_row;
            }
        }
    }

    /// Moves the cursor down one line if there is one, keeping the column within
    /// that line and the window over the cursor.
    pub fn move_down(&mut self)
        requires
            old(self).wf(),
        ensures
            final(self).wf(),
            move_down_post(*old(self), *final(self)),
    {
        let n = self.lines.len();
        if self.cursor_row + 1 < n {
            self.cursor_row = self.cursor_row + 1;
            let line_len = byte_len(&self.lines[self.cursor_row]);
            if self.cursor_col > line_len {
                self.cursor_col = line_len;
            }
            if self.cursor_row - self.scroll_offset >= EDIT_ROWS {
                self.scroll_offset = self.scroll_offset + 1;
            }
        }
    }

    /// Moves the cursor one byte left, or to the end of the line above when it is
    /// at the start of a line.
    pub fn move_left(&mut self)
        requires
            old(self).wf(),
        ensures
            final(self).wf(),
            move_left_post(*old(self), *final(self)),
    {
        if self.cursor_col > 0 {
            self.cursor_col = self.cursor_col - 1;
        } else if self.cursor_row > 0 {
            self.cursor_row = self.cursor_row - 1;
            self.cursor_col = byte_len(&self.lines[self.cursor_row]);
            if self.cursor_row < self.scroll_offset {
                self.scroll_offset = self.cursor_row;
            }
        }
    }

    /// Moves the cursor one byte right, or to the start of the next line when it
    /// is at the end of a line.
    pub fn move_right(&mut self)
        requires
            old(self).wf(),
        ensures
            final(self).wf(),
            move_right_post(*old(self), *final(self)),
    {
        let n = self.lines.len();
        let line_len = byte_len(&self.lines[self.cursor_row]);
        if self.cursor_col < line_len {
            self.cursor_col = self.cursor_col + 1;
        } else if self.cursor_row + 1 < n {
            self.cursor_row = self.cursor_row + 1;
            self.cursor_col = 0;
            if self.cursor_row - self.scroll_offset >= EDIT_ROWS {
                self.scroll_offset = self.scroll_offset + 1;
            }
        }
    }

    /// The text with the lines joined by `'\n'`, as it is saved.
    pub fn serialize(&self) -> (s: String)
        ensures
            s@ == join_with(self.text(), '\n'),
    {
        let mut s = String::new();
        let mut i: usize = 0;
        while i < self.lines.len()
            invariant
                i <= self.lines@.len(),
                s@ == join_with(self.text().take(i as int), '\n'),
            decreases self.lines@.len() - i,
        {
            let ghost t = self.text().take(i + 1);
            assert(t.drop_last() == self.text().take(i as int));
            assert(t.last() == self.lines@[i as int]@);
            if i > 0 {
                string_push(&mut s, '\n');
            }
            string_push_str(&mut s, self.lines[i].as_str());
            i = i + 1;
            assert(s@ =~= join_with(t, '\n'));
        }
        assert(self.text().take(self.lines@.len() as int) == self.text());
        s
    }

    /// The text of the status bar before it is fitted to the screen width.
    pub open spec fn status_text(&self) -> Seq<char> {
        seq![' '] + (if self.dirty { "*"@ } else { " "@ }) + self.filepath@ + " | Ln "@ + decimal(
            (self.cursor_row + 1) as nat,
        ) + "/"@ + decimal(self.lines@.len()) + " Col "@ + decimal((self.cursor_col + 1) as nat)
            + " | Ctrl+S save  Ctrl+Q quit"@
    }

    /// What screen row `i` shows: the line `scroll_offset + i` cut to its first
    /// `SCREEN_COLS` bytes, or `~` past the end of the text.
    pub open spec fn display_row(&self, i: int) -> Seq<char> {
        let r = self.scroll_offset + i;
        if r < self.lines@.len() {
            if self.line_bytes(r).len() > SCREEN_COLS {
                decode_utf8(self.line_bytes(r).take(SCREEN_COLS as int))
            } else {
                self.text()[r]
            }
        } else {
            "~"@
        }
    }

    /// Whether the screen can be drawn: every shown line longer than the screen,
    /// and the status text, are cut at a character boundary (slicing a `str`
    /// panics otherwise).
    pub open spec fn renderable(&self) -> bool {
        &&& forall|i: int|
            0 <= i < EDIT_ROWS && self.scroll_offset + i < self.lines@.len() && #[trigger] self.line_bytes(
                self.scroll_offset + i,
            ).len() > SCREEN_COLS ==> is_char_boundary(
                self.line_bytes(self.scroll_offset + i),
                SCREEN_COLS as int,
            )
        &&& is_char_boundary(
            bytes_of(self.status_text()),
            min_int(SCREEN_COLS as int, bytes_of(self.status_text()).len() as int),
        )
    }

    /// The status text: dirty marker, file, line and column.
    fn status(&self) -> (s: String)
        requires
            self.wf(),
        ensures
            s@ == self.status_text(),
            bytes_of(s@).len() <= isize::MAX,
    {
        assert(self.lines@.len() == self.lines.len());
        let mut s = String::new();
        string_push(&mut s, ' ');
        string_push_str(&mut s, if self.dirty { "*" } else { " " });
        string_push_str(&mut s, self.filepath.as_str());
        string_push_str(&mut s, " | Ln ");
        let row = usize_to_decimal(self.cursor_row + 1);
        string_push_str(&mut s, row.as_str());
        string_push_str(&mut s, "/");
        let count = usize_to_decimal(self.lines.len());
        string_push_str(&mut s, count.as_str());
        string_push_str(&mut s, " Col ");
        let col = usize_to_decimal(self.cursor_col + 1);
        string_push_str(&mut s, col.as_str());
        string_push_str(&mut s, " | Ctrl+S save  Ctrl+Q quit");
        assert(s@ =~= self.status_text());
        s
    }

    /// Whether `render_frame` can draw this editor.
    pub fn can_render(&self) -> (b: bool)
        requires
            self.wf(),
        ensures
            b == self.renderable(),
    {
        let n = self.lines.len();
        let mut i: usize = 0;
        while i < EDIT_ROWS
            invariant
                self.wf(),
                n == self.lines@.len(),
                i <= EDIT_ROWS,
                forall|k: int|
                    0 <= k < i && self.scroll_offset + k < self.lines@.len() && #[trigger] self.line_bytes(
                        self.scroll_offset + k,
                    ).len() > SCREEN_COLS ==> is_char_boundary(
                        self.line_bytes(self.scroll_offset + k),
                        SCREEN_COLS as int,
                    ),
            decreases EDIT_ROWS - i,
        {
            if i < n - self.scroll_offset {
                let line = self.lines[self.scroll_offset + i].as_str();
                assert(line@ == self.lines@[self.scroll_offset + i]@);
                if line.len() > SCREEN_COLS && !line.is_char_boundary(SCREEN_COLS) {
                    assert(self.line_bytes(self.scroll_offset + i).len() > SCREEN_COLS);
                    return false;
                }
            }
            i = i + 1;
        }
        let status = self.status();
        let len = status.as_str().len();
        let cut = if len < SCREEN_COLS { len } else { SCREEN_COLS };
        assert(cut == min_int(SCREEN_COLS as int, bytes_of(self.status_text()).len() as int));
        status.as_str().is_char_boundary(cut)
    }

    /// The picture of the editor: the rows of text, the status bar fitted to
    /// exactly `SCREEN_COLS` bytes (cut, or padded with spaces), and where the
    /// cursor stands on the screen.
    pub fn render_frame(&self) -> (f: Frame)
        requires
            self.wf(),
            self.renderable(),
        ensures
            f.rows@.len() == EDIT_ROWS,
            forall|i: int| 0 <= i < EDIT_ROWS ==> #[trigger] f.rows@[i]@ == self.display_row(i),
            ({
                let b = bytes_of(self.status_text());
                let cut = min_int(SCREEN_COLS as int, b.len() as int);
                bytes_of(f.status@) == b.take(cut) + Seq::new((SCREEN_COLS - cut) as nat, |k: int| 32u8)
            }),
            f.cursor_row == self.cursor_row - self.scroll_offset,
            f.cursor_col == self.cursor_col,
    {
        let n = self.lines.len();
        let mut rows: Vec<String> = Vec::new();
        let mut i: usize = 0;
        while i < EDIT_ROWS
            invariant
                self.wf(),
                self.renderable(),
                n == self.lines@.len(),
                i <= EDIT_ROWS,
                rows@.len() == i,
                forall|k: int| 0 <= k < i ==> #[trigger] rows@[k]@ == self.display_row(k),
            decreases EDIT_ROWS - i,
        {
            if i < n - self.scroll_offset {
                let line = self.lines[self.scroll_offset + i].as_str();
                assert(line@ == self.text()[self.scroll_offset + i]);
                if line.len() > SCREEN_COLS {
                    assert(self.line_bytes(self.scroll_offset + i).len() > SCREEN_COLS);
                    let (head, _) = line.split_at(SCREEN_COLS);
                    proof {
                        encode_utf8_decode_utf8(head@);
                    }
                    rows.push(head.to_owned());
                } else {
                    rows.push(line.to_owned());
                }
            } else {
                rows.push("~".to_owned());
            }
            i = i + 1;
        }
        let status = self.status();
        let len = status.as_str().len();
        let cut = if len < SCREEN_COLS { len } else { SCREEN_COLS };
        assert(cut == min_int(SCREEN_COLS as int, bytes_of(self.status_text()).len() as int));
        let (head, _) = status.as_str().split_at(cut);
        let mut bar = head.to_owned();
        let ghost b = bytes_of(self.status_text());
        proof {
            vstd::utf8::valid_utf8_split(b, cut as int);
            lemma_boundary_in_range(b, cut as int);
        }
        let mut w = byte_len(&bar);
        while w < SCREEN_COLS
            invariant
                cut <= SCREEN_COLS,
                cut <= b.len(),
                w == bytes_of(bar@).len(),
                cut <= w <= SCREEN_COLS,
                bytes_of(bar@) == b.take(cut as int) + Seq::new((w - cut) as nat, |k: int| 32u8),
            decreases SCREEN_COLS - w,
        {
            let ghost before = bar@;
            string_push(&mut bar, ' ');
            proof {
                lemma_bytes_of_add(before, seq![' ']);
                assert(before.push(' ') == before + seq![' ']);
                lemma_ascii_char_bytes(' ');
            }
            w = w + 1;
            assert(bytes_of(bar@) =~= b.take(cut as int) + Seq::new((w - cut) as nat, |k: int| 32u8));
        }
        Frame { rows, status: bar, cursor_row: self.cursor_row - self.scroll_offset, cursor_col: self.cursor_col }
    }
}

/// What the editor shows: `EDIT_ROWS` rows of text, a status bar, and the
/// cursor's position on the screen.
pub struct Frame {
    pub rows: Vec<String>,
    pub status: String,
    pub cursor_row: usize,
    pub cursor_col: usize,
}

/// The text that opening `filepath` shows: the file's contents, or nothing when
/// it cannot be read.
pub open spec fn opened_content(fs: Seq<NodeView>, filepath: Seq<char>) -> Seq<char> {
    match read_file_spec(fs, filepath) {
        Ok(s) => s,
        Err(_) => Seq::empty(),
    }
}

/// `ed` is a fresh editor on the file at `path` of filesystem `fs`.
pub open spec fn opened_at(fs: Seq<NodeView>, path: Seq<char>, ed: Editor) -> bool {
    &&& ed.wf()
    &&& ed.text() == Editor::initial_text(opened_content(fs, path))
    &&& ed.cursor_row == 0
    &&& ed.cursor_col == 0
    &&& ed.scroll_offset == 0
    &&& ed.filepath@ == path
    &&& !ed.dirty
}

/// Opens the file at `filepath` in a new editor; a file that cannot be read
/// opens as empty text.
pub fn open(fs: &Fdfs, filepath: &str) -> (ed: Editor)
    requires
        fs.wf(),
    ensures
        opened_at(fs@, filepath@, ed),
{
    let content = match read_file(fs, filepath) {
        Ok(s) => s,
        Err(_) => String::new(),
    };
    Editor::new(filepath, content.as_str())
}

/// Saves the editor's text to its file. On success the buffer is no longer
/// dirty; on failure the error comes back and the editor is unchanged.
pub fn save(fs: &mut Fdfs, ed: &mut Editor) -> (r: Result<(), &'static str>)
    requires
        old(fs).wf(),
    ensures
        final(fs).wf(),
        (r, final(fs)@) == write_file_spec(old(fs)@, old(ed).filepath@, join_with(old(ed).text(), '\n')),
        final(ed).lines == old(ed).lines,
        final(ed).cursor_row == old(ed).cursor_row,
        final(ed).cursor_col == old(ed).cursor_col,
        final(ed).scroll_offset == old(ed).scroll_offset,
        final(ed).filepath == old(ed).filepath,
        final(ed).dirty == (old(ed).dirty && r is Err),
{
    let content = ed.serialize();
    let path = ed.filepath.clone();
    let r = write_file(fs, path.as_str(), content.as_str());
    if r.is_ok() {
        ed.dirty = false;
    }
    r
}

/// `post` is `pre` after typing `c`: its encoding enters the cursor line at the
/// cursor column, and the cursor moves one byte right.
pub open spec fn insert_char_post(pre: Editor, post: Editor, c: char) -> bool {
    &&& post.text().len() == pre.text().len()
    &&& bytes_of(post.text()[pre.cursor_row as int]) == pre.line_bytes(
        pre.cursor_row as int,
    ).take(pre.cursor_col as int) + bytes_of(seq![c]) + pre.line_bytes(
        pre.cursor_row as int,
    ).skip(pre.cursor_col as int)
    &&& post.text() == pre.text().update(
        pre.cursor_row as int,
        post.text()[pre.cursor_row as int],
    )
    &&& post.cursor_row == pre.cursor_row
    &&& post.cursor_col == pre.cursor_col + 1
    &&& post.scroll_offset == pre.scroll_offset
    &&& post.filepath == pre.filepath
    &&& post.dirty
}

/// `post` is `pre` after a backspace: the character starting one byte left of the
/// cursor goes, or at the start of a line the line joins the one above.
pub open spec fn backspace_post(pre: Editor, post: Editor) -> bool {
    &&& post.filepath == pre.filepath
    &&& post.dirty
    &&& pre.cursor_col > 0 ==> {
        let row = pre.cursor_row as int;
        let b = pre.line_bytes(row);
        let at = pre.cursor_col - 1;
        &&& post.text() == pre.text().update(row, post.text()[row])
        &&& bytes_of(post.text()[row]) == b.take(at) + b.skip(
            at + char_width_at(b, at),
        )
        &&& post.cursor_row == pre.cursor_row
        &&& post.cursor_col == at
        &&& post.scroll_offset == pre.scroll_offset
    }
    &&& pre.cursor_col == 0 && pre.cursor_row == 0 ==> {
        &&& post.lines == pre.lines
        &&& post.cursor_row == 0
        &&& post.cursor_col == 0
        &&& post.scroll_offset == pre.scroll_offset
    }
    &&& pre.cursor_col == 0 && pre.cursor_row > 0 ==> {
        let row = pre.cursor_row as int;
        let t = pre.text();
        &&& post.text() == t.take(row - 1).push(t[row - 1] + t[row]) + t.skip(
            row + 1,
        )
        &&& post.cursor_row == row - 1
        &&& post.cursor_col == bytes_of(t[row - 1]).len()
        &&& post.scroll_offset == min_int(pre.scroll_offset as int, row - 1)
    }
}

/// `post` is `pre` after breaking the cursor line at the cursor column.
pub open spec fn newline_post(pre: Editor, post: Editor) -> bool {
    &&& ({
        let row = pre.cursor_row as int;
        let b = pre.line_bytes(row);
        let t = pre.text();
        post.text() == t.take(row).push(decode_utf8(b.take(pre.cursor_col as int))).push(
            decode_utf8(b.skip(pre.cursor_col as int)),
        ) + t.skip(row + 1)
    })
    &&& post.cursor_row == pre.cursor_row + 1
    &&& post.cursor_col == 0
    &&& post.scroll_offset == scrolled_down(
        pre.scroll_offset as int,
        pre.cursor_row + 1,
    )
    &&& post.filepath == pre.filepath
    &&& post.dirty
}

/// `post` is `pre` with the cursor moved up one line (column clamped to that line).
pub open spec fn move_up_post(pre: Editor, post: Editor) -> bool {
    &&& post.lines == pre.lines
    &&& post.filepath == pre.filepath
    &&& post.dirty == pre.dirty
    &&& pre.cursor_row == 0 ==> post.cursor_row == 0 && post.cursor_col
        == pre.cursor_col && post.scroll_offset == pre.scroll_offset
    &&& pre.cursor_row > 0 ==> {
        &&& post.cursor_row == pre.cursor_row - 1
        &&& post.cursor_col == min_int(
            pre.cursor_col as int,
            pre.line_bytes(pre.cursor_row - 1).len() as int,
        )
        &&& post.scroll_offset == min_int(
            pre.scroll_offset as int,
            pre.cursor_row - 1,
        )
    }
}

/// `post` is `pre` with the cursor moved down one line if there is one.
pub open spec fn move_down_post(pre: Editor, post: Editor) -> bool {
    &&& post.lines == pre.lines
    &&& post.filepath == pre.filepath
    &&& post.dirty == pre.dirty
    &&& pre.cursor_row + 1 >= pre.lines@.len() ==> post.cursor_row
        == pre.cursor_row && post.cursor_col == pre.cursor_col
        && post.scroll_offset == pre.scroll_offset
    &&& pre.cursor_row + 1 < pre.lines@.len() ==> {
        &&& post.cursor_row == pre.cursor_row + 1
        &&& post.cursor_col == min_int(
            pre.cursor_col as int,
            pre.line_bytes(pre.cursor_row + 1).len() as int,
        )
        &&& post.scroll_offset == scrolled_down(
            pre.scroll_offset as int,
            pre.cursor_row + 1,
        )
    }
}

/// `post` is `pre` with the cursor moved one byte left, or to the end of the
/// line above from the start of a line.
pub open spec fn move_left_post(pre: Editor, post: Editor) -> bool {
    &&& post.lines == pre.lines
    &&& post.filepath == pre.filepath
    &&& post.dirty == pre.dirty
    &&& pre.cursor_col > 0 ==> post.cursor_col == pre.cursor_col - 1
        && post.cursor_row == pre.cursor_row && post.scroll_offset
        == pre.scroll_offset
    &&& pre.cursor_col == 0 && pre.cursor_row == 0 ==> post.cursor_col == 0
        && post.cursor_row == 0 && post.scroll_offset
        == pre.scroll_offset
    &&& pre.cursor_col == 0 && pre.cursor_row > 0 ==> {
        &&& post.cursor_row == pre.cursor_row - 1
        &&& post.cursor_col == pre.line_bytes(pre.cursor_row - 1).len()
        &&& post.scroll_offset == min_int(
            pre.scroll_offset as int,
            pre.cursor_row - 1,
        )
    }
}

/// `post` is `pre` with the cursor moved one byte right, or to the start of the
/// next line from the end of a line.
pub open spec fn move_right_post(pre: Editor, post: Editor) -> bool {
    &&& post.lines == pre.lines
    &&& post.filepath == pre.filepath
    &&& post.dirty == pre.dirty
    &&& pre.cursor_col < pre.line_bytes(pre.cursor_row as int).len()
        ==> post.cursor_col == pre.cursor_col + 1 && post.cursor_row
        == pre.cursor_row && post.scroll_offset == pre.scroll_offset
    &&& pre.cursor_col == pre.line_bytes(pre.cursor_row as int).len()
        && pre.cursor_row + 1 >= pre.lines@.len() ==> post.cursor_col
        == pre.cursor_col && post.cursor_row == pre.cursor_row
        && post.scroll_offset == pre.scroll_offset
    &&& pre.cursor_col == pre.line_bytes(pre.cursor_row as int).len()
        && pre.cursor_row + 1 < pre.lines@.len() ==> {
        &&& post.cursor_row == pre.cursor_row + 1
        &&& post.cursor_col == 0
        &&& post.scroll_offset == scrolled_down(
            pre.scroll_offset as int,
            pre.cursor_row + 1,
        )
    }
}

/// The smaller of two integers.
pub open spec fn min_int(a: int, b: int) -> int {
    if a <= b {
        a
    } else {
        b
    }
}

/// The window start after the cursor moved down to `row`: one row further when
/// the cursor would otherwise fall below the window.
pub open spec fn scrolled_down(scroll: int, row: int) -> int {
    if row >= scroll + EDIT_ROWS {
        scroll + 1
    } else {
        scroll
    }
}

/// Non-empty text has at least one line.
pub proof fn lemma_lines_of_nonempty(s: Seq<char>)
    requires
        s.len() > 0,
    ensures
        lines_of(s).len() >= 1,
{
    let (done, cur) = split_parts(s.drop_last(), '\n');
    assert(split_parts(s, '\n') == (if s.last() == '\n' {
        (done.push(cur), Seq::<char>::empty())
    } else {
        (done, cur.push(s.last()))
    }));
}

} // verus!

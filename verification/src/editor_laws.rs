//! What the editor promises across operations: opening and saving give back
//! the text, and a backspace takes back the key typed before it.
use vstd::prelude::*;
use vstd::utf8::{
    decode_utf8, decode_utf8_encode_utf8, decode_utf8_split, encode_scalar, encode_utf8,
    encode_utf8_decode_utf8, encode_utf8_first_scalar, length_of_first_scalar, valid_utf8_split,
    is_char_boundary,
};
use crate::editor::{
    backspace_post, insert_char_post, move_down_post, move_left_post, move_right_post, move_up_post,
    newline_post, opened_content, Editor, EDIT_ROWS, SCREEN_COLS,
};
use crate::fdfs::{fs_wf, write_file_spec, NodeView};
use crate::fdfs_laws::law_read_after_write;
use crate::text::{
    bytes_of, char_width_at, join_with, lemma_boundary_in_range, lemma_split_parts_around,
    lemma_split_parts_no_sep, lines_of, split_on, split_parts,
    strip_cr,
};

verus! {

broadcast use vstd::utf8::encode_utf8_valid_utf8;

/// Joining the pieces of a split with the separator gives the text back.
pub proof fn lemma_join_split(s: Seq<char>, sep: char)
    ensures
        join_with(split_on(s, sep), sep) == s,
    decreases s.len(),
{
    if s.len() > 0 {
        let x = s.last();
        let (d, c) = split_parts(s.drop_last(), sep);
        lemma_join_split(s.drop_last(), sep);
        assert(s.drop_last().push(x) == s);
        if x == sep {
            let l = d.push(c);
            assert(l.push(Seq::<char>::empty()).drop_last() == l);
            assert(s.drop_last() + seq![sep] + Seq::<char>::empty() == s);
        } else {
            let l = d.push(c.push(x));
            if d.len() == 0 {
                assert(d.push(c) == seq![c]);
                assert(l == seq![c.push(x)]);
            } else {
                assert(l.drop_last() == d);
                assert(d.push(c).drop_last() == d);
                assert(join_with(d, sep) + seq![sep] + c.push(x) == (join_with(d, sep) + seq![sep]
                    + c).push(x));
            }
        }
    }
}

/// Splitting text without `'\r'` yields pieces without `'\r'`.
pub proof fn lemma_split_parts_no_cr(s: Seq<char>, sep: char)
    requires
        forall|i: int| 0 <= i < s.len() ==> s[i] != '\r',
    ensures
        forall|k: int|
            0 <= k < split_parts(s, sep).0.len() ==> strip_cr(#[trigger] split_parts(s, sep).0[k])
                == split_parts(s, sep).0[k],
        forall|i: int| 0 <= i < split_parts(s, sep).1.len() ==> split_parts(s, sep).1[i] != '\r',
    decreases s.len(),
{
    if s.len() > 0 {
        assert forall|i: int| 0 <= i < s.drop_last().len() implies s.drop_last()[i] != '\r' by {
            assert(s.drop_last()[i] == s[i]);
        }
        lemma_split_parts_no_cr(s.drop_last(), sep);
        let (d, c) = split_parts(s.drop_last(), sep);
        if s.last() == sep {
            assert forall|k: int| 0 <= k < d.push(c).len() implies strip_cr(#[trigger] d.push(c)[k]) == d.push(c)[k] by {
                if k == d.len() {
                    assert(d.push(c)[k] == c);
                    if c.len() > 0 {
                        assert(c.last() == c[c.len() - 1]);
                    }
                }
            }
        } else {
            assert forall|i: int| 0 <= i < c.push(s.last()).len() implies c.push(s.last())[i] != '\r' by {
                if i == c.len() {
                    assert(s.last() == s[s.len() - 1]);
                }
            }
        }
    }
}

/// Opening text and saving it gives the same text back, when the text has no
/// `'\r'` and does not end with a line break (those are the two things
/// `str::lines` drops).
pub proof fn law_open_then_serialize(s: Seq<char>)
    requires
        forall|i: int| 0 <= i < s.len() ==> s[i] != '\r',
        s.len() == 0 || s.last() != '\n',
    ensures
        join_with(Editor::initial_text(s), '\n') == s,
{
    if s.len() > 0 {
        let (d, c) = split_parts(s, '\n');
        lemma_split_parts_no_cr(s, '\n');
        let (d0, c0) = split_parts(s.drop_last(), '\n');
        assert(c == c0.push(s.last()));
        assert(d.map_values(|l: Seq<char>| strip_cr(l)) =~= d);
        assert(lines_of(s) == split_on(s, '\n'));
        lemma_join_split(s, '\n');
    }
}

/// The encoding of one character is the encoding of its scalar value.
proof fn lemma_bytes_of_single(c: char)
    ensures
        bytes_of(seq![c]) == encode_scalar(c as u32),
{
    assert(seq![c].drop_first() == Seq::<char>::empty());
    assert(seq![c][0] == c);
    assert(encode_utf8(Seq::<char>::empty()) == Seq::<u8>::empty());
    assert(encode_scalar(c as u32) + Seq::<u8>::empty() == encode_scalar(c as u32));
}

/// Backspace takes back a typed character: typing `c` and then pressing
/// Backspace leaves the text and the cursor as they were.
pub proof fn law_backspace_undoes_insert(a: Editor, b: Editor, d: Editor, c: char)
    requires
        a.wf(),
        is_char_boundary(a.line_bytes(a.cursor_row as int), a.cursor_col as int),
        insert_char_post(a, b, c),
        backspace_post(b, d),
    ensures
        d.text() == a.text(),
        d.cursor_row == a.cursor_row,
        d.cursor_col == a.cursor_col,
        d.scroll_offset == a.scroll_offset,
{
    let row = a.cursor_row as int;
    let col = a.cursor_col as int;
    let bb = a.line_bytes(row);
    let e = bytes_of(seq![c]);
    let p = bb.take(col);
    let q = bb.skip(col);
    lemma_boundary_in_range(bb, col);
    let nb = bytes_of(b.text()[row]);
    assert(nb == p + e + q);
    assert(b.text()[row] == b.lines@[row]@);
    assert(b.line_bytes(row) == nb);
    lemma_bytes_of_single(c);
    encode_utf8_first_scalar(seq![c]);
    assert(seq![c][0] == c);
    assert(nb.skip(col) == e + q);
    assert(length_of_first_scalar(nb.skip(col)) == length_of_first_scalar(e)) by {
        assert(nb.skip(col)[0] == e[0]);
    }
    assert(char_width_at(nb, col) == e.len());
    let db = bytes_of(d.text()[row]);
    assert(db == nb.take(col) + nb.skip(col + e.len()));
    assert(nb.take(col) == p);
    assert(nb.skip(col + e.len()) == q);
    assert(p + q == bb);
    encode_utf8_decode_utf8(d.text()[row]);
    encode_utf8_decode_utf8(a.text()[row]);
    assert(a.text()[row] == a.lines@[row]@);
    assert(d.text()[row] == a.text()[row]);
    assert(d.text() =~= a.text());
}

/// Backspace at the start of a line takes back a line break: breaking a line
/// and then pressing Backspace leaves the text and the cursor as they were.
pub proof fn law_backspace_undoes_newline(a: Editor, b: Editor, d: Editor)
    requires
        a.wf(),
        is_char_boundary(a.line_bytes(a.cursor_row as int), a.cursor_col as int),
        newline_post(a, b),
        backspace_post(b, d),
    ensures
        d.text() == a.text(),
        d.cursor_row == a.cursor_row,
        d.cursor_col == a.cursor_col,
{
    let row = a.cursor_row as int;
    let col = a.cursor_col as int;
    let t = a.text();
    let bb = a.line_bytes(row);
    lemma_boundary_in_range(bb, col);
    valid_utf8_split(bb, col);
    decode_utf8_split(bb, col);
    let x = decode_utf8(bb.take(col));
    let y = decode_utf8(bb.skip(col));
    assert(bb.take(col) == bb.subrange(0, col));
    assert(bb.skip(col) == bb.subrange(col, bb.len() as int));
    assert(t[row] == a.lines@[row]@);
    encode_utf8_decode_utf8(t[row]);
    assert(x + y == t[row]);
    decode_utf8_encode_utf8(bb.take(col));
    let tb = b.text();
    assert(tb == t.take(row).push(x).push(y) + t.skip(row + 1));
    assert(tb[row] == x);
    assert(tb[row + 1] == y);
    assert(d.text() =~= t);
}

/// Splitting lines joined by a separator that none of them holds gives the
/// lines back.
pub proof fn lemma_split_join(ls: Seq<Seq<char>>, sep: char)
    requires
        ls.len() >= 1,
        forall|k: int, i: int| 0 <= k < ls.len() && 0 <= i < ls[k].len() ==> #[trigger] ls[k][i] != sep,
    ensures
        split_on(join_with(ls, sep), sep) == ls,
    decreases ls.len(),
{
    if ls.len() == 1 {
        lemma_split_parts_no_sep(ls[0], sep);
        assert(Seq::<Seq<char>>::empty().push(ls[0]) == ls);
    } else {
        let a = join_with(ls.drop_last(), sep);
        lemma_split_join(ls.drop_last(), sep);
        lemma_split_parts_around(a, sep, ls.last());
        lemma_split_parts_no_sep(ls.last(), sep);
        assert(ls.drop_last() + Seq::<Seq<char>>::empty() == ls.drop_last());
        assert(ls.drop_last().push(ls.last()) == ls);
    }
}

/// Saving and opening again gives back the lines: after the editor's text is
/// written to its file, opening that file shows the same lines, when no line
/// holds a line break or `'\r'` and the text does not end with an empty line
/// (which `str::lines` drops).
pub proof fn law_save_then_open(fs: Seq<NodeView>, ed: Editor)
    requires
        fs_wf(fs),
        write_file_spec(fs, ed.filepath@, join_with(ed.text(), '\n')).0 is Ok,
        ed.text().len() >= 1,
        forall|k: int, i: int|
            0 <= k < ed.text().len() && 0 <= i < ed.text()[k].len() ==> #[trigger] ed.text()[k][i]
                != '\n' && ed.text()[k][i] != '\r',
        ed.text().len() == 1 || ed.text().last().len() > 0,
    ensures
        Editor::initial_text(
            opened_content(
                write_file_spec(fs, ed.filepath@, join_with(ed.text(), '\n')).1,
                ed.filepath@,
            ),
        ) == ed.text(),
{
    let ls = ed.text();
    let s = join_with(ls, '\n');
    law_read_after_write(fs, ed.filepath@, s);
    lemma_split_join(ls, '\n');
    lemma_join_split(s, '\n');
    if ls.len() >= 2 {
        assert(s == join_with(ls.drop_last(), '\n') + seq!['\n'] + ls.last());
        assert(s.len() > 0);
    }
    if s.len() == 0 {
        assert(ls.len() == 1);
        assert(ls[0] == s);
        assert(ls == seq![Seq::<char>::empty()]);
    } else {
        let (d, c) = split_parts(s, '\n');
        assert(split_on(s, '\n') == d.push(c));
        assert(d == ls.drop_last());
        assert(c == ls.last());
        assert(d.map_values(|l: Seq<char>| strip_cr(l)) =~= d) by {
            assert forall|k: int| 0 <= k < d.len() implies strip_cr(#[trigger] d[k]) == d[k] by {
                assert(d[k] == ls[k]);
                if d[k].len() > 0 {
                    assert(ls[k][ls[k].len() - 1] != '\r');
                }
            }
        }
        if ls.len() == 1 {
            assert(c == s);
        }
        assert(lines_of(s) == d.push(c));
    }
}

/// Moving up from a row below the first lands on the row above, in the same
/// column when that line is long enough and at its end otherwise.
pub proof fn law_move_up_keeps_column(pre: Editor, post: Editor)
    requires
        pre.wf(),
        pre.cursor_row > 0,
        move_up_post(pre, post),
    ensures
        post.cursor_row == pre.cursor_row - 1,
        post.cursor_col <= post.line_bytes(post.cursor_row as int).len(),
        pre.cursor_col <= pre.line_bytes(pre.cursor_row - 1).len() ==> post.cursor_col
            == pre.cursor_col,
        pre.cursor_col > pre.line_bytes(pre.cursor_row - 1).len() ==> post.cursor_col
            == pre.line_bytes(pre.cursor_row - 1).len(),
        post.lines == pre.lines,
{
}

/// Moving down from a row above the last lands on the row below, in the same
/// column when that line is long enough and at its end otherwise.
pub proof fn law_move_down_keeps_column(pre: Editor, post: Editor)
    requires
        pre.wf(),
        pre.cursor_row + 1 < pre.lines@.len(),
        move_down_post(pre, post),
    ensures
        post.cursor_row == pre.cursor_row + 1,
        post.cursor_col <= post.line_bytes(post.cursor_row as int).len(),
        pre.cursor_col <= pre.line_bytes(pre.cursor_row + 1).len() ==> post.cursor_col
            == pre.cursor_col,
        pre.cursor_col > pre.line_bytes(pre.cursor_row + 1).len() ==> post.cursor_col
            == pre.line_bytes(pre.cursor_row + 1).len(),
        post.lines == pre.lines,
{
}

/// Up then down comes back to the same row, and to the same column when the
/// line above was long enough for it.
pub proof fn law_up_then_down(pre: Editor, mid: Editor, post: Editor)
    requires
        pre.wf(),
        pre.cursor_row > 0,
        move_up_post(pre, mid),
        move_down_post(mid, post),
    ensures
        post.cursor_row == pre.cursor_row,
        pre.cursor_col <= pre.line_bytes(pre.cursor_row - 1).len() ==> post.cursor_col
            == pre.cursor_col,
        post.lines == pre.lines,
{
}

/// Left then right comes back to where the cursor was, unless it stood at the
/// very start of the text.
pub proof fn law_left_then_right(pre: Editor, mid: Editor, post: Editor)
    requires
        pre.wf(),
        pre.cursor_row > 0 || pre.cursor_col > 0,
        move_left_post(pre, mid),
        move_right_post(mid, post),
    ensures
        post.cursor_row == pre.cursor_row,
        post.cursor_col == pre.cursor_col,
        post.lines == pre.lines,
{
}

/// Right then left comes back to where the cursor was, unless it stood at the
/// very end of the text.
pub proof fn law_right_then_left(pre: Editor, mid: Editor, post: Editor)
    requires
        pre.wf(),
        pre.cursor_row + 1 < pre.lines@.len() || pre.cursor_col < pre.line_bytes(
            pre.cursor_row as int,
        ).len(),
        move_left_post(mid, post),
        move_right_post(pre, mid),
    ensures
        post.cursor_row == pre.cursor_row,
        post.cursor_col == pre.cursor_col,
        post.lines == pre.lines,
{
}

/// A cursor move scrolls only as far as it must: the window stays put while
/// the cursor's new row is in it, and otherwise moves just far enough to show
/// that row at its top or bottom edge.
pub proof fn law_move_scrolls_minimally(pre: Editor, post: Editor)
    requires
        pre.wf(),
        move_up_post(pre, post) || move_down_post(pre, post) || move_left_post(pre, post)
            || move_right_post(pre, post),
    ensures
        pre.scroll_offset <= post.cursor_row < pre.scroll_offset + EDIT_ROWS ==> post.scroll_offset
            == pre.scroll_offset,
        post.cursor_row < pre.scroll_offset ==> post.scroll_offset == post.cursor_row,
        post.cursor_row >= pre.scroll_offset + EDIT_ROWS ==> post.scroll_offset + EDIT_ROWS
            == post.cursor_row + 1,
{
}

/// The editor shows the window of lines that starts at `scroll_offset`: screen
/// row `i` shows line `scroll_offset + i` as it is when it fits the screen
/// width and `~` past the end of the text; the cursor's line is on screen.
pub proof fn law_window_rows(ed: Editor, i: int)
    requires
        ed.wf(),
        0 <= i < EDIT_ROWS,
    ensures
        ed.scroll_offset + i < ed.lines@.len() && ed.line_bytes(ed.scroll_offset + i).len()
            <= SCREEN_COLS ==> ed.display_row(i) == ed.lines@[ed.scroll_offset + i]@,
        ed.scroll_offset + i >= ed.lines@.len() ==> ed.display_row(i) == "~"@,
        0 <= ed.cursor_row - ed.scroll_offset < EDIT_ROWS,
{
}

} // verus!

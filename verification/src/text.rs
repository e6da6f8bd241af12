//! Text primitives shared by the filesystem, the editor and the shell:
//! byte views of strings, line splitting and joining, and the few `String`
//! operations that the library makes at byte offsets.
use vstd::prelude::*;
use vstd::utf8::*;

verus! {

broadcast use vstd::utf8::encode_utf8_valid_utf8;

/// The UTF-8 bytes of a character sequence: what `str::len` and byte offsets count.
pub open spec fn bytes_of(s: Seq<char>) -> Seq<u8> {
    encode_utf8(s)
}

/// Byte length of a `String` (as `str::len` counts it).
pub fn byte_len(s: &String) -> (n: usize)
    requires
        bytes_of(s@).len() <= usize::MAX,
    ensures
        n == bytes_of(s@).len(),
{
    s.as_str().len()
}

/// Appends one character.
///
/// Calls `String::push`. Claimed: the characters are the old ones followed by
/// `c`, and (as for every `Vec` that std hands back) the byte length is at most `isize::MAX`.
#[verifier::external_body]
pub fn string_push(s: &mut String, c: char)
    ensures
        final(s)@ == old(s)@.push(c),
        bytes_of(final(s)@).len() <= isize::MAX,
{
    s.push(c)
}


/// The characters of a string slice, in order.
pub fn chars_of(s: &str) -> (v: Vec<char>)
    ensures
        v@ == s@,
{
    broadcast use vstd::string::group_string_axioms;
    let mut v: Vec<char> = Vec::new();
    for c in it: s.chars()
        invariant
            v@ == it.seq().take(it.index() as int),
            it.seq() == s@,
    {
        v.push(c);
    }
    v
}


/// Removes the last character.
///
/// Calls `String::pop`. Claimed: a non-empty string loses its last character,
/// which comes back; an empty string stays empty and gives `None`.
#[verifier::external_body]
pub fn string_pop(s: &mut String) -> (r: Option<char>)
    ensures
        old(s)@.len() == 0 ==> r is None && final(s)@ == old(s)@,
        old(s)@.len() > 0 ==> r == Some(old(s)@.last()) && final(s)@ == old(s)@.drop_last(),
{
    s.pop()
}

/// The decimal digits of `n`, without leading zeros.
pub open spec fn decimal(n: nat) -> Seq<char>
    decreases n,
{
    if n < 10 {
        seq![(48 + n) as char]
    } else {
        decimal(n / 10).push((48 + n % 10) as char)
    }
}

/// The decimal digit `d`.
fn digit_char(d: usize) -> (c: char)
    requires
        d < 10,
    ensures
        c == (48 + d) as char,
{
    match d {
        0 => '0',
        1 => '1',
        2 => '2',
        3 => '3',
        4 => '4',
        5 => '5',
        6 => '6',
        7 => '7',
        8 => '8',
        _ => '9',
    }
}

/// Formats a number in decimal, as `usize`'s `Display` does.
pub fn usize_to_decimal(n: usize) -> (s: String)
    ensures
        s@ == decimal(n as nat),
    decreases n,
{
    if n < 10 {
        let mut s = String::new();
        string_push(&mut s, digit_char(n));
        assert(s@ == seq![(48 + n) as char]);
        s
    } else {
        let mut s = usize_to_decimal(n / 10);
        string_push(&mut s, digit_char(n % 10));
        s
    }
}

/// Appends a string slice.
///
/// Calls `String::push_str`. Claimed: the characters are the old ones followed by
/// those of `t`, and the byte length is at most `isize::MAX`.
#[verifier::external_body]
pub fn string_push_str(s: &mut String, t: &str)
    ensures
        final(s)@ == old(s)@ + t@,
        bytes_of(final(s)@).len() <= isize::MAX,
{
    s.push_str(t)
}

/// Inserts a character at a byte offset.
///
/// Calls `String::insert`, which panics unless `idx` lies on a character boundary.
/// Claimed: the new bytes are the old bytes with the encoding of `c` placed at `idx`.
#[verifier::external_body]
pub fn string_insert(s: &mut String, idx: usize, c: char)
    requires
        is_char_boundary(bytes_of(old(s)@), idx as int),
    ensures
        bytes_of(final(s)@) == bytes_of(old(s)@).take(idx as int) + bytes_of(seq![c])
            + bytes_of(old(s)@).skip(idx as int),
        bytes_of(final(s)@).len() <= isize::MAX,
{
    s.insert(idx, c)
}

/// Width in bytes of the character whose encoding starts at byte `i` of `b`.
pub open spec fn char_width_at(b: Seq<u8>, i: int) -> int {
    length_of_first_scalar(b.skip(i))
}

/// Removes the character that starts at a byte offset.
///
/// Calls `String::remove`, which panics unless `idx` is below the byte length and
/// on a character boundary. Claimed: the new bytes are the old ones without the
/// encoding of the character that starts at `idx`.
#[verifier::external_body]
pub fn string_remove(s: &mut String, idx: usize)
    requires
        idx < bytes_of(old(s)@).len(),
        is_char_boundary(bytes_of(old(s)@), idx as int),
    ensures
        bytes_of(final(s)@) == bytes_of(old(s)@).take(idx as int) + bytes_of(old(s)@).skip(
            idx + char_width_at(bytes_of(old(s)@), idx as int),
        ),
{
    s.remove(idx);
}

/// A character boundary of valid UTF-8 lies within the bytes.
pub proof fn lemma_boundary_in_range(b: Seq<u8>, i: int)
    requires
        valid_utf8(b),
        is_char_boundary(b, i),
    ensures
        0 <= i <= b.len(),
{
    reveal_with_fuel(is_char_boundary, 1);
}

/// The character starting at a boundary below the end fits in the bytes, and
/// is at least one byte wide.
pub proof fn lemma_char_width_fits(b: Seq<u8>, i: int)
    requires
        valid_utf8(b),
        is_char_boundary(b, i),
        i < b.len(),
    ensures
        1 <= char_width_at(b, i),
        i + char_width_at(b, i) <= b.len(),
{
    lemma_boundary_in_range(b, i);
    valid_utf8_split(b, i);
    assert(b.skip(i) == b.subrange(i, b.len() as int));
    reveal_with_fuel(valid_utf8, 1);
}

/// Splits a string in two at a byte offset, keeping the front.
///
/// Calls `String::split_off`, which panics unless `at` is a character boundary.
/// Claimed: the string keeps the bytes before `at` and the result holds the rest.
#[verifier::external_body]
pub fn string_split_off(s: &mut String, at: usize) -> (rest: String)
    requires
        is_char_boundary(bytes_of(old(s)@), at as int),
    ensures
        bytes_of(final(s)@) == bytes_of(old(s)@).take(at as int),
        bytes_of(rest@) == bytes_of(old(s)@).skip(at as int),
{
    s.split_off(at)
}

/// Decodes UTF-8 bytes into a `String`.
///
/// Calls `String::from_utf8`. Claimed: it succeeds exactly when the bytes are
/// valid UTF-8, and then holds the characters they encode.
#[verifier::external_body]
pub fn string_from_utf8(bytes: Vec<u8>) -> (r: Option<String>)
    ensures
        r is Some <==> valid_utf8(bytes@),
        r matches Some(s) ==> s@ == decode_utf8(bytes@),
{
    String::from_utf8(bytes).ok()
}

/// A `String` holding the given characters.
pub fn string_from_chars(v: &[char]) -> (s: String)
    ensures
        s@ == v@,
        bytes_of(s@).len() <= isize::MAX,
{
    let mut s = String::new();
    let mut i: usize = 0;
    while i < v.len()
        invariant
            i <= v@.len(),
            s@ == v@.take(i as int),
            bytes_of(s@).len() <= isize::MAX,
        decreases v@.len() - i,
    {
        string_push(&mut s, v[i]);
        i = i + 1;
        assert(v@.take(i as int) == v@.take(i - 1).push(v@[i - 1]));
    }
    assert(v@.take(v@.len() as int) == v@);
    s
}

/// The UTF-8 encoding of a concatenation is the concatenation of the encodings.
pub proof fn lemma_bytes_of_add(a: Seq<char>, b: Seq<char>)
    ensures
        bytes_of(a + b) == bytes_of(a) + bytes_of(b),
    decreases a.len(),
{
    if a.len() == 0 {
        assert(a + b == b);
    } else {
        lemma_bytes_of_add(a.drop_first(), b);
        assert((a + b).drop_first() == a.drop_first() + b);
        assert((a + b)[0] == a[0]);
    }
}

/// An ASCII character encodes to the single byte of its code.
pub proof fn lemma_ascii_char_bytes(c: char)
    requires
        (c as u32) < 128,
    ensures
        bytes_of(seq![c]) == seq![(c as u32) as u8],
{
    let u = c as u32;
    assert(u & 0x7f == u) by (bit_vector)
        requires
            u < 128,
    ;
    assert(seq![c].drop_first() == Seq::<char>::empty());
    assert(seq![c][0] == c);
    assert(encode_utf8(Seq::<char>::empty()) == Seq::<u8>::empty());
    assert(encode_scalar(u) == seq![(u & 0x7f) as u8]);
    assert(bytes_of(seq![c]) == encode_scalar(u) + Seq::<u8>::empty());
    assert(encode_scalar(u) + Seq::<u8>::empty() == encode_scalar(u));
}

/// A single character encodes to at least one byte.
pub proof fn lemma_bytes_of_char(c: char)
    ensures
        bytes_of(seq![c]).len() >= 1,
{
    assert(seq![c].drop_first() == Seq::<char>::empty());
}


/// Splitting `s` at each `sep`: the pieces already closed by a `sep`, and the
/// piece still open after the last one.
pub open spec fn split_parts(s: Seq<char>, sep: char) -> (Seq<Seq<char>>, Seq<char>)
    decreases s.len(),
{
    if s.len() == 0 {
        (Seq::empty(), Seq::empty())
    } else {
        let (done, cur) = split_parts(s.drop_last(), sep);
        if s.last() == sep {
            (done.push(cur), Seq::empty())
        } else {
            (done, cur.push(s.last()))
        }
    }
}

/// The pieces of `s` between occurrences of `sep` (as `str::split` gives them):
/// always at least one, possibly empty.
pub open spec fn split_on(s: Seq<char>, sep: char) -> Seq<Seq<char>> {
    split_parts(s, sep).0.push(split_parts(s, sep).1)
}

/// The non-empty pieces, in order.
pub open spec fn nonempty_pieces(ps: Seq<Seq<char>>) -> Seq<Seq<char>> {
    ps.filter(|s: Seq<char>| s.len() > 0)
}

/// Splitting around a separator: the pieces of the part before it, then the
/// pieces of the part after it.
pub proof fn lemma_split_parts_around(a: Seq<char>, sep: char, b: Seq<char>)
    ensures
        split_parts(a + seq![sep] + b, sep) == (split_on(a, sep) + split_parts(b, sep).0, split_parts(b, sep).1),
    decreases b.len(),
{
    let s = a + seq![sep] + b;
    if b.len() == 0 {
        assert(s.drop_last() == a);
        assert(s.last() == sep);
        assert(split_on(a, sep) + Seq::<Seq<char>>::empty() == split_on(a, sep));
    } else {
        lemma_split_parts_around(a, sep, b.drop_last());
        assert(s.drop_last() == a + seq![sep] + b.drop_last());
        assert(s.last() == b.last());
        let (d, c) = split_parts(b.drop_last(), sep);
        assert((split_on(a, sep) + d).push(c) == split_on(a, sep) + d.push(c));
    }
}

/// Text without the separator is a single open piece.
pub proof fn lemma_split_parts_no_sep(b: Seq<char>, sep: char)
    requires
        forall|j: int| 0 <= j < b.len() ==> b[j] != sep,
    ensures
        split_parts(b, sep) == (Seq::<Seq<char>>::empty(), b),
    decreases b.len(),
{
    if b.len() > 0 {
        lemma_split_parts_no_sep(b.drop_last(), sep);
        assert(b.drop_last().push(b.last()) == b);
    }
}

/// A line with the `'\r'` of a `"\r\n"` terminator removed.
pub open spec fn strip_cr(l: Seq<char>) -> Seq<char> {
    if l.len() > 0 && l.last() == '\r' {
        l.drop_last()
    } else {
        l
    }
}

/// The lines of `s` as `str::lines` documents them: split at `'\n'`, a `'\r'`
/// just before a `'\n'` belongs to the terminator, and a final line ending is
/// optional (it does not start an empty line).
pub open spec fn lines_of(s: Seq<char>) -> Seq<Seq<char>> {
    let (done, cur) = split_parts(s, '\n');
    let closed = done.map_values(|l: Seq<char>| strip_cr(l));
    if cur.len() == 0 {
        closed
    } else {
        closed.push(cur)
    }
}

/// The lines joined with `sep` between consecutive ones (as `[String]::join`).
pub open spec fn join_with(ls: Seq<Seq<char>>, sep: char) -> Seq<char>
    decreases ls.len(),
{
    if ls.len() == 0 {
        Seq::empty()
    } else if ls.len() == 1 {
        ls[0]
    } else {
        join_with(ls.drop_last(), sep) + seq![sep] + ls.last()
    }
}

/// The views of a vector of strings.
pub open spec fn views(v: Seq<String>) -> Seq<Seq<char>> {
    v.map_values(|l: String| l@)
}

/// Splits text into lines, as `str::lines` does.
pub fn split_lines(content: &str) -> (lines: Vec<String>)
    ensures
        views(lines@) == lines_of(content@),
        forall|i: int| 0 <= i < lines@.len() ==> bytes_of(#[trigger] lines@[i]@).len() <= isize::MAX,
{
    let chars = chars_of(content);
    let mut lines: Vec<String> = Vec::new();
    let mut cur: Vec<char> = Vec::new();
    let mut i: usize = 0;
    while i < chars.len()
        invariant
            i <= chars@.len(),
            chars@ == content@,
            views(lines@) == split_parts(chars@.take(i as int), '\n').0.map_values(
                |l: Seq<char>| strip_cr(l),
            ),
            cur@ == split_parts(chars@.take(i as int), '\n').1,
            forall|j: int| 0 <= j < lines@.len() ==> bytes_of(#[trigger] lines@[j]@).len() <= isize::MAX,
        decreases chars@.len() - i,
    {
        let ghost prev = chars@.take(i as int);
        let c = chars[i];
        i = i + 1;
        assert(chars@.take(i as int).drop_last() == prev);
        let ghost old_lines = views(lines@);
        let ghost old_cur = cur@;
        let ghost done = split_parts(prev, '\n').0;
        assert(c == chars@.take(i as int).last());
        if c == '\n' {
            let n = cur.len();
            if n > 0 && cur[n - 1] == '\r' {
                cur.pop();
            }
            assert(cur@ == strip_cr(old_cur));
            let line = string_from_chars(cur.as_slice());
            lines.push(line);
            cur = Vec::new();
            assert(split_parts(chars@.take(i as int), '\n').0 == done.push(old_cur));
            assert(done.push(old_cur).map_values(|l: Seq<char>| strip_cr(l)) =~= done.map_values(
                |l: Seq<char>| strip_cr(l),
            ).push(strip_cr(old_cur)));
            assert(views(lines@) =~= old_lines.push(strip_cr(old_cur)));
        } else {
            cur.push(c);
            assert(views(lines@) =~= old_lines);
        }
        assert(views(lines@) == split_parts(chars@.take(i as int), '\n').0.map_values(
            |l: Seq<char>| strip_cr(l),
        ));
    }
    assert(chars@.take(i as int) == content@);
    if cur.len() > 0 {
        let line = string_from_chars(cur.as_slice());
        let ghost old_lines = views(lines@);
        lines.push(line);
        assert(views(lines@) =~= old_lines.push(cur@));
    }
    lines
}

} // verus!

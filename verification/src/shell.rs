//! The command shell: what a typed line asks for.
use vstd::prelude::*;
use crate::fdfs::same_text;
use crate::text::chars_of;

verus! {

/// Whether `c` has the Unicode `White_Space` property (as `char::is_whitespace`).
pub open spec fn is_whitespace_spec(c: char) -> bool {
    ||| '\u{9}' <= c <= '\u{d}'
    ||| c == ' '
    ||| c == '\u{85}'
    ||| c == '\u{a0}'
    ||| c == '\u{1680}'
    ||| '\u{2000}' <= c <= '\u{200a}'
    ||| c == '\u{2028}'
    ||| c == '\u{2029}'
    ||| c == '\u{202f}'
    ||| c == '\u{205f}'
    ||| c == '\u{3000}'
}

/// Whether `c` is a control character, general category `Cc` (as `char::is_control`).
pub open spec fn is_control_spec(c: char) -> bool {
    c <= '\u{1f}' || '\u{7f}' <= c <= '\u{9f}'
}

/// `char::is_whitespace`.
pub fn is_whitespace(c: char) -> (b: bool)
    ensures
        b == is_whitespace_spec(c),
{
    ('\u{9}' <= c && c <= '\u{d}') || c == ' ' || c == '\u{85}' || c == '\u{a0}' || c == '\u{1680}'
        || ('\u{2000}' <= c && c <= '\u{200a}') || c == '\u{2028}' || c == '\u{2029}' || c
        == '\u{202f}' || c == '\u{205f}' || c == '\u{3000}'
}

/// `char::is_control`.
pub fn is_control(c: char) -> (b: bool)
    ensures
        b == is_control_spec(c),
{
    c <= '\u{1f}' || ('\u{7f}' <= c && c <= '\u{9f}')
}

/// `s` without its leading whitespace.
pub open spec fn trim_start(s: Seq<char>) -> Seq<char>
    decreases s.len(),
{
    if s.len() > 0 && is_whitespace_spec(s[0]) {
        trim_start(s.drop_first())
    } else {
        s
    }
}

/// `s` without its trailing whitespace.
pub open spec fn trim_end(s: Seq<char>) -> Seq<char>
    decreases s.len(),
{
    if s.len() > 0 && is_whitespace_spec(s.last()) {
        trim_end(s.drop_last())
    } else {
        s
    }
}

/// `s` without leading and trailing whitespace (as `str::trim`).
pub open spec fn trim(s: Seq<char>) -> Seq<char> {
    trim_end(trim_start(s))
}

/// The position of the first `c` in `s`.
pub open spec fn first_index_of(s: Seq<char>, c: char) -> Option<int>
    decreases s.len(),
{
    if s.len() == 0 {
        None
    } else if s[0] == c {
        Some(0)
    } else {
        match first_index_of(s.drop_first(), c) {
            Some(i) => Some(i + 1),
            None => None,
        }
    }
}

/// A line split at its first space into the command word and its arguments
/// (as `splitn(2, ' ')`, with empty arguments when there is no space).
pub open spec fn command_and_args(t: Seq<char>) -> (Seq<char>, Seq<char>) {
    match first_index_of(t, ' ') {
        Some(i) => (t.take(i), t.skip(i + 1)),
        None => (t, Seq::empty()),
    }
}

/// What a typed line asks the shell to do.
#[derive(Debug, PartialEq, Eq)]
pub enum Command {
    /// Nothing was typed (only whitespace).
    Empty,
    Help,
    /// Print the arguments.
    Echo(String),
    Clear,
    About,
    /// Restart the system.
    Reboot,
    /// Make the kernel panic.
    Panic,
    /// Open the named file in the editor.
    Edit(String),
    /// A command word the shell does not know.
    Unknown(String),
}

/// What `input` asks for: after trimming, the word before the first space
/// chooses the command and the rest are its arguments (the text for `echo`,
/// the path for `edit`).
pub open spec fn command_spec(input: Seq<char>, c: Command) -> bool {
    let t = trim(input);
    let (word, args) = command_and_args(t);
    if t.len() == 0 {
        c is Empty
    } else if word == "help"@ {
        c is Help
    } else if word == "echo"@ {
        c matches Command::Echo(a) && a@ == args
    } else if word == "clear"@ {
        c is Clear
    } else if word == "about"@ {
        c is About
    } else if word == "reboot"@ {
        c is Reboot
    } else if word == "panic"@ {
        c is Panic
    } else if word == "edit"@ {
        c matches Command::Edit(a) && a@ == args
    } else {
        c matches Command::Unknown(w) && w@ == word
    }
}

/// Reads the command in a typed line.
pub fn parse_command(input: &str) -> (c: Command)
    ensures
        command_spec(input@, c),
{
    let s = chars_of(input);
    let n = s.len();
    let mut start: usize = 0;
    assert(s@.skip(0) == s@);
    while start < n && is_whitespace(s[start])
        invariant
            start <= n,
            n == s@.len(),
            trim_start(s@) == trim_start(s@.skip(start as int)),
        decreases n - start,
    {
        assert(s@.skip(start as int).drop_first() == s@.skip(start + 1));
        start = start + 1;
    }
    assert(trim_start(s@) == s@.skip(start as int));
    let mut end: usize = n;
    assert(s@.subrange(start as int, n as int) == s@.skip(start as int));
    while end > start && is_whitespace(s[end - 1])
        invariant
            start <= end <= n,
            n == s@.len(),
            trim_start(s@) == s@.skip(start as int),
            trim(s@) == trim_end(s@.subrange(start as int, end as int)),
        decreases end,
    {
        assert(s@.subrange(start as int, end as int).drop_last() == s@.subrange(start as int, end - 1));
        end = end - 1;
    }
    let t = input.substring_char(start, end);
    assert(t@ == trim(input@));
    if end == start {
        return Command::Empty;
    }
    let m = end - start;
    let mut k: usize = 0;
    assert(t@.skip(0) == t@);
    assert(first_index_of(t@, ' ') == match first_index_of(t@.skip(0), ' ') {
        Some(i) => Some(i + 0),
        None => None,
    });
    while k < m && s[start + k] != ' '
        invariant
            k <= m,
            m == t@.len(),
            start + m <= n,
            n == s@.len(),
            t@ == s@.subrange(start as int, start + m),
            first_index_of(t@, ' ') == match first_index_of(t@.skip(k as int), ' ') {
                Some(i) => Some(i + k),
                None => None,
            },
        decreases m - k,
    {
        assert(t@.skip(k as int).drop_first() == t@.skip(k + 1));
        k = k + 1;
    }
    let (word, args) = if k < m {
        assert(t@.skip(k as int)[0] == t@[k as int]);
        assert(first_index_of(t@, ' ') == Some(k as int));
        (t.substring_char(0, k), t.substring_char(k + 1, m))
    } else {
        assert(t@.skip(m as int).len() == 0);
        assert(first_index_of(t@, ' ') == None::<int>);
        proof {
            reveal_strlit("");
        }
        (t, "")
    };
    assert(command_and_args(t@) == (word@, args@));
    if same_text(word, "help") {
        Command::Help
    } else if same_text(word, "echo") {
        Command::Echo(args.to_owned())
    } else if same_text(word, "clear") {
        Command::Clear
    } else if same_text(word, "about") {
        Command::About
    } else if same_text(word, "reboot") {
        Command::Reboot
    } else if same_text(word, "panic") {
        Command::Panic
    } else if same_text(word, "edit") {
        Command::Edit(args.to_owned())
    } else {
        Command::Unknown(word.to_owned())
    }
}

} // verus!

//! The filesystem as the rest of the kernel uses it: paths relative to a
//! current working directory, and errors turned into empty listings.
use vstd::prelude::*;
use crate::fdfs::{
    entry_views, is_dir_spec, list_dir_spec, make_dir_spec, read_file_spec, remove_spec,
    text_result_view, write_file_spec, Fdfs,
};
use crate::text::{chars_of, string_push, string_push_str};

verus! {

/// The absolute path that `path` names from directory `cwd`.
pub open spec fn resolve_path_spec(cwd: Seq<char>, path: Seq<char>) -> Seq<char> {
    if path.len() > 0 && path[0] == '/' {
        path
    } else if cwd == seq!['/'] {
        seq!['/'] + path
    } else {
        cwd + seq!['/'] + path
    }
}

/// Resolves a path relative to the working directory `cwd` into an absolute
/// path. A path that starts with `/` is already absolute.
pub fn resolve_path(cwd: &str, path: &str) -> (r: String)
    ensures
        r@ == resolve_path_spec(cwd@, path@),
{
    let p = chars_of(path);
    if p.len() > 0 && p[0] == '/' {
        return path.to_owned();
    }
    let c = chars_of(cwd);
    let mut r = String::new();
    if c.len() == 1 && c[0] == '/' {
        string_push(&mut r, '/');
        string_push_str(&mut r, path);
        assert(c@ =~= seq!['/']);
        assert(r@ =~= seq!['/'] + path@);
    } else {
        string_push_str(&mut r, cwd);
        string_push(&mut r, '/');
        string_push_str(&mut r, path);
        assert(c@ != seq!['/']) by {
            if c@ == seq!['/'] {
                assert(c@.len() == 1 && c@[0] == '/');
            }
        }
        assert(r@ =~= cwd@ + seq!['/'] + path@);
    }
    r
}

/// The entries of a directory; none when the path is not a directory.
pub fn list_dir(fs: &Fdfs, path: &str) -> (r: Vec<(String, bool)>)
    requires
        fs.wf(),
    ensures
        list_dir_spec(fs@, path@) matches Ok(es) ==> entry_views(r@) == es,
        list_dir_spec(fs@, path@) is Err ==> r@.len() == 0,
{
    match fs.list_dir(path) {
        Ok(entries) => entries,
        Err(_) => {
            Vec::new()
        },
    }
}

/// Reads a file as text.
pub fn read_file(fs: &Fdfs, path: &str) -> (r: Result<String, &'static str>)
    requires
        fs.wf(),
    ensures
        text_result_view(r) == read_file_spec(fs@, path@),
{
    fs.read_file(path)
}

/// Writes text to a file, creating it when needed.
pub fn write_file(fs: &mut Fdfs, path: &str, contents: &str) -> (r: Result<(), &'static str>)
    requires
        old(fs).wf(),
    ensures
        final(fs).wf(),
        (r, final(fs)@) == write_file_spec(old(fs)@, path@, contents@),
{
    fs.write_file(path, contents)
}

/// Creates a directory.
pub fn make_dir(fs: &mut Fdfs, path: &str) -> (r: Result<(), &'static str>)
    requires
        old(fs).wf(),
    ensures
        final(fs).wf(),
        (r, final(fs)@) == make_dir_spec(old(fs)@, path@),
{
    fs.make_dir(path)
}

/// Removes a file or an empty directory.
pub fn remove(fs: &mut Fdfs, path: &str) -> (r: Result<(), &'static str>)
    requires
        old(fs).wf(),
    ensures
        final(fs).wf(),
        (r, final(fs)@) == remove_spec(old(fs)@, path@),
{
    fs.remove(path)
}

/// Whether a path names a directory.
pub fn is_dir(fs: &Fdfs, path: &str) -> (b: bool)
    requires
        fs.wf(),
    ensures
        b == is_dir_spec(fs@, path@),
{
    fs.is_dir(path)
}

} // verus!

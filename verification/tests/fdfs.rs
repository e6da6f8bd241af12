use palladiumos::fdfs::{split_path, Fdfs};

fn listing(fs: &Fdfs, path: &str) -> Result<Vec<(String, bool)>, &'static str> {
    fs.list_dir(path)
}

#[test]
fn new_filesystem_has_empty_root() {
    let fs = Fdfs::new();
    assert_eq!(fs.resolve("/"), Some(0));
    assert!(fs.is_dir("/"));
    assert_eq!(listing(&fs, "/"), Ok(vec![]));
}

#[test]
fn read_after_write() {
    let mut fs = Fdfs::new();
    assert_eq!(fs.write_file("/hello.txt", "Hello, world"), Ok(()));
    assert_eq!(fs.read_file("/hello.txt"), Ok("Hello, world".to_string()));
    assert!(!fs.is_dir("/hello.txt"));
}

#[test]
fn read_after_write_non_ascii() {
    let mut fs = Fdfs::new();
    assert_eq!(fs.write_file("/grüße.txt", "héllo ✓"), Ok(()));
    assert_eq!(fs.read_file("/grüße.txt"), Ok("héllo ✓".to_string()));
}

#[test]
fn overwrite_replaces_contents() {
    let mut fs = Fdfs::new();
    assert_eq!(fs.write_file("/a.txt", "one"), Ok(()));
    assert_eq!(fs.write_file("/a.txt", "two"), Ok(()));
    assert_eq!(fs.read_file("/a.txt"), Ok("two".to_string()));
    assert_eq!(listing(&fs, "/"), Ok(vec![("a.txt".to_string(), false)]));
}

#[test]
fn write_keeps_other_files() {
    let mut fs = Fdfs::new();
    assert_eq!(fs.write_file("/a.txt", "alpha"), Ok(()));
    assert_eq!(fs.write_file("/b.txt", "beta"), Ok(()));
    assert_eq!(fs.write_file("/a.txt", "gamma"), Ok(()));
    assert_eq!(fs.read_file("/b.txt"), Ok("beta".to_string()));
    assert_eq!(fs.read_file("/a.txt"), Ok("gamma".to_string()));
}

#[test]
fn nested_directories() {
    let mut fs = Fdfs::new();
    assert_eq!(fs.make_dir("/documents"), Ok(()));
    assert_eq!(fs.make_dir("/documents/notes"), Ok(()));
    assert_eq!(fs.write_file("/documents/notes/todo.txt", "buy milk"), Ok(()));
    assert_eq!(fs.write_file("/documents/readme", "hi"), Ok(()));
    assert_eq!(
        listing(&fs, "/documents"),
        Ok(vec![("notes".to_string(), true), ("readme".to_string(), false)])
    );
    assert_eq!(listing(&fs, "/"), Ok(vec![("documents".to_string(), true)]));
    assert_eq!(fs.read_file("/documents/notes/todo.txt"), Ok("buy milk".to_string()));
    assert!(fs.is_dir("/documents/notes"));
}

#[test]
fn resolve_ignores_repeated_slashes() {
    let mut fs = Fdfs::new();
    assert_eq!(fs.make_dir("/docs"), Ok(()));
    assert_eq!(fs.write_file("/docs/a.txt", "x"), Ok(()));
    assert_eq!(fs.resolve("/docs/a.txt"), Some(2));
    assert_eq!(fs.resolve("//docs///a.txt"), Some(2));
    assert_eq!(fs.resolve("docs/a.txt"), Some(2));
    assert_eq!(fs.resolve("/docs/"), Some(1));
    assert_eq!(fs.resolve("/docs/b.txt"), None);
    assert_eq!(fs.resolve("/docs/a.txt/more"), None);
    assert_eq!(fs.resolve(""), Some(0));
}

#[test]
fn names_are_case_sensitive() {
    let mut fs = Fdfs::new();
    assert_eq!(fs.write_file("/File", "upper"), Ok(()));
    assert_eq!(fs.write_file("/file", "lower"), Ok(()));
    assert_eq!(fs.read_file("/File"), Ok("upper".to_string()));
    assert_eq!(fs.read_file("/file"), Ok("lower".to_string()));
}

#[test]
fn make_dir_then_empty_listing() {
    let mut fs = Fdfs::new();
    assert_eq!(fs.make_dir("/empty"), Ok(()));
    assert!(fs.is_dir("/empty"));
    assert_eq!(listing(&fs, "/empty"), Ok(vec![]));
}

#[test]
fn make_dir_twice_fails() {
    let mut fs = Fdfs::new();
    assert_eq!(fs.make_dir("/d"), Ok(()));
    assert_eq!(fs.make_dir("/d"), Err("Already exists"));
    assert_eq!(fs.write_file("/f", ""), Ok(()));
    assert_eq!(fs.make_dir("/f"), Err("Already exists"));
}

#[test]
fn make_dir_errors() {
    let mut fs = Fdfs::new();
    assert_eq!(fs.make_dir("nodir"), Err("Invalid path"));
    assert_eq!(fs.make_dir("/d/"), Err("Path ends with /"));
    assert_eq!(fs.make_dir("/missing/d"), Err("Parent directory not found"));
    assert_eq!(fs.write_file("/f", "x"), Ok(()));
    assert_eq!(fs.make_dir("/f/d"), Err("Parent is not a directory"));
}

#[test]
fn write_file_errors() {
    let mut fs = Fdfs::new();
    assert_eq!(fs.write_file("hello.txt", "x"), Err("Invalid path"));
    assert_eq!(fs.write_file("/", "x"), Err("Path ends with /"));
    assert_eq!(fs.write_file("/missing/a.txt", "x"), Err("Parent directory not found"));
    assert_eq!(fs.write_file("/f", "x"), Ok(()));
    assert_eq!(fs.write_file("/f/a.txt", "x"), Err("Parent is not a directory"));
    assert_eq!(fs.make_dir("/d"), Ok(()));
    assert_eq!(fs.write_file("/d", "x"), Err("Is a directory"));
}

#[test]
fn read_file_errors() {
    let mut fs = Fdfs::new();
    assert_eq!(fs.read_file("/nothing"), Err("File not found"));
    assert_eq!(fs.make_dir("/d"), Ok(()));
    assert_eq!(fs.read_file("/d"), Err("Is a directory"));
    assert_eq!(fs.read_file("/"), Err("Is a directory"));
}

#[test]
fn list_dir_errors() {
    let mut fs = Fdfs::new();
    assert_eq!(listing(&fs, "/nothing"), Err("Directory not found"));
    assert_eq!(fs.write_file("/f", "x"), Ok(()));
    assert_eq!(listing(&fs, "/f"), Err("Not a directory"));
}

#[test]
fn remove_then_gone() {
    let mut fs = Fdfs::new();
    assert_eq!(fs.write_file("/a.txt", "a"), Ok(()));
    assert_eq!(fs.write_file("/b.txt", "b"), Ok(()));
    assert_eq!(fs.remove("/a.txt"), Ok(()));
    assert_eq!(fs.resolve("/a.txt"), None);
    assert_eq!(fs.read_file("/a.txt"), Err("File not found"));
    assert_eq!(fs.read_file("/b.txt"), Ok("b".to_string()));
    assert_eq!(listing(&fs, "/"), Ok(vec![("b.txt".to_string(), false)]));
    assert_eq!(fs.write_file("/a.txt", "again"), Ok(()));
    assert_eq!(fs.read_file("/a.txt"), Ok("again".to_string()));
}

#[test]
fn remove_errors() {
    let mut fs = Fdfs::new();
    assert_eq!(fs.remove("x"), Err("Invalid path"));
    assert_eq!(fs.remove("/x/"), Err("Path ends with /"));
    assert_eq!(fs.remove("/missing/x"), Err("Parent not found"));
    assert_eq!(fs.remove("/x"), Err("Not found"));
    assert_eq!(fs.make_dir("/d"), Ok(()));
    assert_eq!(fs.write_file("/d/f", "x"), Ok(()));
    assert_eq!(fs.remove("/d"), Err("Directory is not empty"));
    assert_eq!(fs.remove("/d/f"), Ok(()));
    assert_eq!(fs.remove("/d"), Ok(()));
    assert!(!fs.is_dir("/d"));
}

#[test]
fn split_path_cases() {
    assert_eq!(split_path("/documents/hello.txt"), Ok(("/documents", "hello.txt")));
    assert_eq!(split_path("/hello.txt"), Ok(("/", "hello.txt")));
    assert_eq!(split_path("a/b/c"), Ok(("a/b", "c")));
    assert_eq!(split_path("hello.txt"), Err("Invalid path"));
    assert_eq!(split_path("/documents/"), Err("Path ends with /"));
    assert_eq!(split_path(""), Err("Invalid path"));
}

#[test]
fn find_child_and_node_kinds() {
    let mut fs = Fdfs::new();
    assert_eq!(fs.make_dir("/d"), Ok(()));
    assert_eq!(fs.write_file("/f", "x"), Ok(()));
    assert_eq!(fs.find_child(0, "d"), Some(1));
    assert_eq!(fs.find_child(0, "f"), Some(2));
    assert_eq!(fs.find_child(0, "g"), None);
    assert_eq!(fs.find_child(2, "anything"), None);
}

#[test]
fn make_dir_keeps_files() {
    let mut fs = Fdfs::new();
    assert_eq!(fs.write_file("/a.txt", "kept"), Ok(()));
    assert_eq!(fs.make_dir("/d"), Ok(()));
    assert_eq!(fs.read_file("/a.txt"), Ok("kept".to_string()));
    assert_eq!(fs.resolve("/a.txt"), Some(1));
}

use palladiumos::fdfs::Fdfs;
use palladiumos::filesystem::{is_dir, list_dir, make_dir, read_file, remove, resolve_path, write_file};

#[test]
fn resolve_path_relative_to_root() {
    assert_eq!(resolve_path("/", "notes.txt"), "/notes.txt");
}

#[test]
fn resolve_path_relative_to_directory() {
    assert_eq!(resolve_path("/documents", "notes.txt"), "/documents/notes.txt");
    assert_eq!(resolve_path("/documents", ""), "/documents/");
}

#[test]
fn resolve_path_absolute_unchanged() {
    assert_eq!(resolve_path("/documents", "/etc/motd"), "/etc/motd");
    assert_eq!(resolve_path("/", "/"), "/");
}

#[test]
fn list_dir_errors_give_empty_listing() {
    let mut fs = Fdfs::new();
    assert_eq!(list_dir(&fs, "/missing"), vec![]);
    assert_eq!(write_file(&mut fs, "/f", "x"), Ok(()));
    assert_eq!(list_dir(&fs, "/f"), vec![]);
    assert_eq!(list_dir(&fs, "/"), vec![("f".to_string(), false)]);
}

#[test]
fn free_functions_delegate() {
    let mut fs = Fdfs::new();
    assert_eq!(make_dir(&mut fs, "/d"), Ok(()));
    assert!(is_dir(&fs, "/d"));
    assert_eq!(write_file(&mut fs, "/d/x", "data"), Ok(()));
    assert_eq!(read_file(&fs, "/d/x"), Ok("data".to_string()));
    assert_eq!(remove(&mut fs, "/d/x"), Ok(()));
    assert_eq!(read_file(&fs, "/d/x"), Err("File not found"));
    assert_eq!(remove(&mut fs, "/d"), Ok(()));
    assert!(!is_dir(&fs, "/d"));
}

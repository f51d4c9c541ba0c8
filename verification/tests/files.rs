use std::path::PathBuf;
use stellar_guesser::files::{embedded_key, is_within_base, merge_listings, FileInfo};

fn file(name: Option<&str>, path: &str, contents: &[u8]) -> FileInfo {
    FileInfo::new(name.map(|n| n.to_string()), PathBuf::from(path), contents.to_vec())
}

#[test]
fn file_info_accessors() {
    let f = file(Some("a.txt"), "data/a.txt", b"hello");
    assert_eq!(f.get_name(), &Some("a.txt".to_string()));
    assert_eq!(f.get_path(), &PathBuf::from("data/a.txt"));
    assert_eq!(f.get_contents(), b"hello");
    assert_eq!(f.contents_as_string(), Some("hello".to_string()));
    assert_eq!(f.contents_as_string_or_empty(), "hello");
}

#[test]
fn invalid_utf8_gives_empty_text() {
    let f = file(None, "x", &[0x66, 0xff, 0x6f]);
    assert_eq!(f.contents_as_string(), None);
    assert_eq!(f.contents_as_string_or_empty(), "");
    let g = file(None, "y", "žluťoučký".as_bytes());
    assert_eq!(g.contents_as_string_or_empty(), "žluťoučký");
}

#[test]
fn filesystem_files_replace_embedded_ones() {
    let embedded = vec![file(Some("a"), "em/a", b"1"), file(Some("b"), "em/b", b"2"), file(None, "em/x", b"3")];
    let filesystem = vec![file(Some("b"), "fs/b", b"4"), file(Some("c"), "fs/c", b"5"), file(Some("c"), "fs/c2", b"6")];
    let merged = merge_listings(embedded, filesystem);
    let paths: Vec<PathBuf> = merged.iter().map(|f| f.get_path().clone()).collect();
    assert_eq!(
        paths,
        vec![PathBuf::from("em/a"), PathBuf::from("em/x"), PathBuf::from("fs/b"), PathBuf::from("fs/c2")]
    );
}

#[test]
fn unnamed_filesystem_files_replace_nothing() {
    let embedded = vec![file(Some("a"), "em/a", b"1")];
    let filesystem = vec![file(None, "fs/?", b"2")];
    let merged = merge_listings(embedded, filesystem);
    assert_eq!(merged.len(), 2);
}

#[test]
fn embedded_keys() {
    assert_eq!(embedded_key("./data/stars/list.csv"), "stars/list.csv");
    assert_eq!(embedded_key("././data/x"), "x");
    assert_eq!(embedded_key(".\\data/x"), "x");
    assert_eq!(embedded_key("data/data/x"), "x");
    assert_eq!(embedded_key("stars"), "stars");
    assert_eq!(embedded_key("data/./x"), "./x");
}

fn parts(path: &str) -> Vec<Vec<u8>> {
    path.split('/').filter(|p| !p.is_empty()).map(|p| p.as_bytes().to_vec()).collect()
}

#[test]
fn paths_inside_the_base_directory() {
    let base = parts("/home/user/app");
    assert!(is_within_base(&base, &parts("/home/user/app")));
    assert!(is_within_base(&base, &parts("/home/user/app/data/stars.csv")));
    assert!(!is_within_base(&base, &parts("/home/user")));
    assert!(!is_within_base(&base, &parts("/home/user/application/x")));
    assert!(!is_within_base(&base, &parts("/etc/passwd")));
    assert!(is_within_base(&[], &parts("/etc/passwd")));
}

use cgrep::walk::{is_listed, DirEntry, Walk};

fn filters(names: &[&str]) -> Vec<String> {
    names.iter().map(|n| n.to_string()).collect()
}

fn listing_of_root() -> Vec<DirEntry> {
    vec![
        DirEntry::new("test_dir/file1.rs".to_string(), false),
        DirEntry::new("test_dir/file2.py".to_string(), false),
        DirEntry::new("test_dir/sub".to_string(), true),
    ]
}

fn listing_of_sub() -> Vec<DirEntry> {
    vec![DirEntry::new("test_dir/sub/file3.rs".to_string(), false)]
}

fn walk(wanted: &[&str]) -> Vec<String> {
    let wanted = filters(wanted);
    let mut walk = Walk::new("test_dir".to_string());
    while let Some(directory) = walk.next_directory() {
        let entries = match directory.as_str() {
            "test_dir" => listing_of_root(),
            "test_dir/sub" => listing_of_sub(),
            _ => Vec::new(),
        };
        walk.record(&entries, &wanted);
    }
    walk.into_files()
}

#[test]
fn walk_finds_rs_files_in_all_directories() {
    assert_eq!(walk(&["rs"]), vec!["test_dir/file1.rs", "test_dir/sub/file3.rs"]);
}

#[test]
fn walk_finds_py_files_only() {
    let files = walk(&["py"]);
    assert_eq!(files, vec!["test_dir/file2.py"]);
    assert!(!files.contains(&"test_dir/file1.rs".to_string()));
}

#[test]
fn walk_with_several_extensions() {
    assert_eq!(
        walk(&["py", "rs"]),
        vec!["test_dir/file1.rs", "test_dir/file2.py", "test_dir/sub/file3.rs"]
    );
}

#[test]
fn walk_without_a_wanted_file_finds_nothing() {
    assert_eq!(walk(&["java"]), Vec::<String>::new());
    assert_eq!(walk(&[]), Vec::<String>::new());
}

#[test]
fn empty_directory_gives_nothing() {
    let mut walk = Walk::new("empty".to_string());
    assert_eq!(walk.next_directory(), Some("empty".to_string()));
    walk.record(&Vec::new(), &filters(&["rs"]));
    assert_eq!(walk.next_directory(), None);
    assert_eq!(walk.into_files(), Vec::<String>::new());
}

#[test]
fn new_walk_has_the_root_to_read() {
    let mut walk = Walk::new("root".to_string());
    assert_eq!(walk.pending, vec!["root"]);
    assert!(walk.files.is_empty());
    assert_eq!(walk.next_directory(), Some("root".to_string()));
    assert_eq!(walk.next_directory(), None);
    assert_eq!(walk.next_directory(), None);
}

#[test]
fn record_keeps_what_was_there() {
    let mut walk = Walk::new("root".to_string());
    walk.record(&listing_of_root(), &filters(&["rs"]));
    assert_eq!(walk.pending, vec!["root", "test_dir/sub"]);
    assert_eq!(walk.files, vec!["test_dir/file1.rs"]);
    walk.record(&listing_of_sub(), &filters(&["rs"]));
    assert_eq!(walk.pending, vec!["root", "test_dir/sub"]);
    assert_eq!(walk.files, vec!["test_dir/file1.rs", "test_dir/sub/file3.rs"]);
}

#[test]
fn directory_with_an_extension_is_no_file() {
    let mut walk = Walk::new("root".to_string());
    walk.next_directory();
    walk.record(&vec![DirEntry::new("root/vendor.rs".to_string(), true)], &filters(&["rs"]));
    assert_eq!(walk.files, Vec::<String>::new());
    assert_eq!(walk.pending, vec!["root/vendor.rs"]);
}

#[test]
fn entry_has_the_extension_of_its_name() {
    assert_eq!(DirEntry::new("a/b.rs".to_string(), false).extension, Some("rs".to_string()));
    assert_eq!(DirEntry::new("a/b.tar.gz".to_string(), false).extension, Some("gz".to_string()));
    assert_eq!(DirEntry::new("a.d/b".to_string(), false).extension, None);
    assert_eq!(DirEntry::new("a/.hidden".to_string(), false).extension, None);
    assert_eq!(DirEntry::new("a/b.".to_string(), false).extension, Some("".to_string()));
    assert_eq!(DirEntry::new("/a/.x.y".to_string(), false).extension, Some("y".to_string()));
    assert_eq!(DirEntry::new("a/...".to_string(), false).extension, Some("".to_string()));
    assert_eq!(DirEntry::new("a.b/..".to_string(), false).extension, None);
    assert_eq!(DirEntry::new("a/b.rs/".to_string(), false).extension, Some("rs".to_string()));
    assert_eq!(DirEntry::new("..".to_string(), false).extension, None);
    assert_eq!(DirEntry::new("name.tar".to_string(), false).extension, Some("tar".to_string()));
    let entry = DirEntry::new("a/b.rs".to_string(), false);
    assert_eq!(entry.path, "a/b.rs");
    assert!(!entry.is_dir);
}

#[test]
fn selection_is_by_the_whole_extension() {
    let wanted = filters(&["rs"]);
    assert!(DirEntry::new("a.rs".to_string(), false).selected(&wanted));
    assert!(!DirEntry::new("a.rs".to_string(), true).selected(&wanted));
    assert!(!DirEntry::new("a.rsx".to_string(), false).selected(&wanted));
    assert!(!DirEntry::new("a.RS".to_string(), false).selected(&wanted));
    assert!(!DirEntry::new("rs".to_string(), false).selected(&wanted));
    let given = DirEntry { path: "odd".to_string(), is_dir: false, extension: Some("rs".to_string()) };
    assert!(given.selected(&wanted));
}

#[test]
fn listed_is_membership() {
    let wanted = filters(&["rs", "py"]);
    assert!(is_listed(&"py".to_string(), &wanted));
    assert!(is_listed(&"rs".to_string(), &wanted));
    assert!(!is_listed(&"p".to_string(), &wanted));
    assert!(!is_listed(&"rs".to_string(), &Vec::new()));
}

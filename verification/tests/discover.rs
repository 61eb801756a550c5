use tokcount::config::ConfigError;
use tokcount::discover::{passes, DirEntry, FileRecord, Walk};

fn file(path: &str) -> DirEntry {
    DirEntry { path: path.to_string(), is_dir: false, is_symlink: false }
}

fn dir(path: &str) -> DirEntry {
    DirEntry { path: path.to_string(), is_dir: true, is_symlink: false }
}

fn strings(items: &[&str]) -> Vec<String> {
    items.iter().map(|s| s.to_string()).collect()
}

fn pairs(files: &[FileRecord]) -> Vec<(String, String)> {
    files.iter().map(|f| (f.path.clone(), f.extension.clone())).collect()
}

fn pair(path: &str, extension: &str) -> (String, String) {
    (path.to_string(), extension.to_string())
}

#[test]
fn empty_filter_admits_everything() {
    assert!(passes(&vec![], &"rs".to_string()));
    assert!(passes(&vec![], &"".to_string()));
}

#[test]
fn filter_admits_only_its_extensions() {
    let filter = strings(&["rs", "go"]);
    assert!(passes(&filter, &"rs".to_string()));
    assert!(passes(&filter, &"go".to_string()));
    assert!(!passes(&filter, &"txt".to_string()));
    assert!(!passes(&filter, &"".to_string()));
    assert!(!passes(&filter, &"RS".to_string()));
}

#[test]
fn walk_does_not_start_outside_a_directory() {
    assert!(matches!(Walk::new("file.txt".to_string(), false), Err(ConfigError::NotADirectory)));
}

#[test]
fn walk_starts_with_the_root() {
    let mut walk = Walk::new("root".to_string(), true).unwrap();
    assert_eq!(walk.next_directory(), Some("root".to_string()));
    assert_eq!(walk.next_directory(), None);
    assert!(walk.into_files().is_empty());
}

#[test]
fn walk_selects_files_and_queues_directories() {
    let mut walk = Walk::new("root".to_string(), true).unwrap();
    assert_eq!(walk.next_directory(), Some("root".to_string()));
    let listing = vec![file("root/a.rs"), dir("root/sub"), file("root/b.txt"), file("root/c")];
    walk.record_listing(Some(&listing), &strings(&["rs", "txt"]));
    assert_eq!(walk.next_directory(), Some("root/sub".to_string()));
    walk.record_listing(Some(&vec![file("root/sub/d.rs"), file("root/sub/e.go")]), &strings(&["rs", "txt"]));
    assert_eq!(walk.next_directory(), None);
    assert_eq!(
        pairs(&walk.into_files()),
        vec![pair("root/a.rs", "rs"), pair("root/b.txt", "txt"), pair("root/sub/d.rs", "rs")]
    );
}

#[test]
fn unreadable_directory_is_skipped() {
    let mut walk = Walk::new("root".to_string(), true).unwrap();
    walk.next_directory();
    walk.record_listing(Some(&vec![dir("root/locked"), dir("root/open"), file("root/a.rs")]), &vec![]);
    assert_eq!(walk.next_directory(), Some("root/open".to_string()));
    walk.record_listing(Some(&vec![file("root/open/b.rs")]), &vec![]);
    assert_eq!(walk.next_directory(), Some("root/locked".to_string()));
    walk.record_listing(None, &vec![]);
    assert_eq!(walk.next_directory(), None);
    assert_eq!(pairs(&walk.into_files()), vec![pair("root/a.rs", "rs"), pair("root/open/b.rs", "rs")]);
}

#[test]
fn directories_are_not_selected_as_files() {
    let mut walk = Walk::new("root".to_string(), true).unwrap();
    walk.next_directory();
    walk.record_listing(Some(&vec![dir("root/pkg.rs")]), &strings(&["rs"]));
    assert_eq!(walk.next_directory(), Some("root/pkg.rs".to_string()));
    assert!(walk.into_files().is_empty());
}

#[test]
fn covering_filter_selects_what_the_empty_filter_selects() {
    let listing = vec![file("r/a.rs"), file("r/b.go"), dir("r/sub"), file("r/c"), file("r/d.rs")];
    let select = |filter: &Vec<String>| {
        let mut walk = Walk::new("r".to_string(), true).unwrap();
        walk.next_directory();
        walk.record_listing(Some(&listing), filter);
        pairs(&walk.into_files())
    };
    let everything = select(&vec![]);
    assert_eq!(everything.len(), 4);
    assert_eq!(select(&strings(&["rs", "go", ""])), everything);
    assert_eq!(select(&strings(&["rs"])), vec![pair("r/a.rs", "rs"), pair("r/d.rs", "rs")]);
}

#[test]
fn linked_directories_are_neither_walked_nor_counted() {
    let link = DirEntry { path: "root/loop".to_string(), is_dir: true, is_symlink: true };
    let linked_file = DirEntry { path: "root/l.rs".to_string(), is_dir: false, is_symlink: true };
    let mut walk = Walk::new("root".to_string(), true).unwrap();
    walk.next_directory();
    walk.record_listing(Some(&vec![link, linked_file]), &vec![]);
    assert_eq!(walk.next_directory(), None);
    assert_eq!(pairs(&walk.into_files()), vec![pair("root/l.rs", "rs")]);
}

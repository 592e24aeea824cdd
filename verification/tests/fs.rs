use lipl_storage::error::Error;
use lipl_storage::fs::{
    file_has_suffix, first_entry_named, is_directory, is_regular_file, select_files,
    DescriptorType, Directory, DirectoryEntry, File,
};
use lipl_storage::store::lyric_file_name;

fn entry(type_: DescriptorType, name: &str) -> DirectoryEntry {
    DirectoryEntry { type_, name: name.to_string() }
}

#[test]
fn entry_kinds() {
    assert!(is_regular_file(&entry(DescriptorType::RegularFile, "a")));
    assert!(!is_regular_file(&entry(DescriptorType::Directory, "a")));
    assert!(is_directory(&entry(DescriptorType::Directory, "a")));
    assert!(!is_directory(&entry(DescriptorType::SymbolicLink, "a")));
}

#[test]
fn suffix_filter() {
    let f = file_has_suffix(".md");
    assert!(f(&entry(DescriptorType::RegularFile, "x.md")));
    assert!(f(&entry(DescriptorType::RegularFile, ".md")));
    assert!(!f(&entry(DescriptorType::RegularFile, "x.toml")));
    assert!(!f(&entry(DescriptorType::Directory, "x.md")));
    assert!(!f(&entry(DescriptorType::RegularFile, "md")));
}

#[test]
fn selecting_files() {
    let entries = vec![
        entry(DescriptorType::RegularFile, "a.md"),
        entry(DescriptorType::RegularFile, "b.toml"),
        entry(DescriptorType::Directory, "c.md"),
        entry(DescriptorType::RegularFile, "d.md"),
    ];
    let names: Vec<String> = select_files(entries, ".md").into_iter().map(|e| e.name).collect();
    assert_eq!(names, vec!["a.md", "d.md"]);
}

#[test]
fn finding_an_entry() {
    let entries = vec![
        entry(DescriptorType::Directory, "a"),
        entry(DescriptorType::RegularFile, "a"),
        entry(DescriptorType::RegularFile, "b"),
    ];
    let found = first_entry_named(entries, "a").unwrap();
    assert_eq!(found.type_, DescriptorType::RegularFile);
    assert_eq!(found.name, "a");
    match first_entry_named(vec![entry(DescriptorType::Directory, "a")], "a") {
        Err(Error::Io(m)) => assert_eq!(m, "No entry found"),
        other => panic!("unexpected {:?}", other),
    }
}

fn file(name: &str) -> File<()> {
    File { name: name.to_string(), descriptor: () }
}

#[test]
fn file_ids() {
    assert_eq!(file("abc.md").id(), "abc");
    assert_eq!(file("abc.toml").id(), "abc");
    assert_eq!(file("a.b.md").id(), "a.b");
    assert_eq!(file(".md").id(), ".md");
    assert_eq!(file("plain").id(), "plain");
    assert_eq!(file("dir/x.md").id(), "x");
    assert_eq!(file("").id(), "");
    assert_eq!(file("..").id(), "");
}

#[test]
fn file_of_a_lyric_has_its_id() {
    let id = "QKKvuNZBAph1JaHLs3UNtu";
    assert_eq!(file(&lyric_file_name(id)).id(), id);
    assert_eq!(file(&lyric_file_name("v1.2")).id(), "v1.2");
    assert_eq!(file(&lyric_file_name(".x")).id(), ".x");
}

#[test]
fn root_directory() {
    let preopens = vec![(1u8, "/data".to_string()), (2u8, "/".to_string()), (3u8, "/".to_string())];
    let root = Directory::new_root(preopens).unwrap();
    assert_eq!(root.descriptor, 2);
    assert_eq!(root.name, "/");
    match Directory::new_root(vec![(1u8, "/tmp".to_string())]) {
        Err(Error::Io(m)) => assert_eq!(m, "No preopen found with path /"),
        _ => panic!("expected an error"),
    }
    let d: Directory<u8> = Directory::from((7u8, "x".to_string()));
    assert_eq!(d.descriptor, 7);
    assert_eq!(d.name, "x");
}

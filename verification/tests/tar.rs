use std::io::Read;
use tar::Archive;
use tree_to_archive::tar::{append_file_to_tar, AppendToTar, AppendTree, BuildTar, Builder};
use tree_to_archive::tree::{FileSystemTree, MergeableFileSystemTree};

/// Reads every entry of a tar archive: path, header size field, header mode
/// field, and content bytes, in order.
fn read_entries(bytes: &[u8]) -> Vec<(String, u64, u32, Vec<u8>)> {
    let mut archive = Archive::new(bytes);
    let mut out = Vec::new();
    for entry in archive.entries().expect("list entries") {
        let mut entry = entry.expect("read entry");
        let path = entry
            .path()
            .expect("entry path")
            .to_str()
            .expect("utf-8 path")
            .to_string();
        let size = entry.header().size().expect("size field");
        let mode = entry.header().mode().expect("mode field");
        let mut data = Vec::new();
        entry.read_to_end(&mut data).expect("entry content");
        out.push((path, size, mode, data));
    }
    out
}

fn text_of(entries: &[(String, u64, u32, Vec<u8>)], path: &str) -> String {
    let entry = entries
        .iter()
        .find(|e| e.0 == path)
        .unwrap_or_else(|| panic!("no entry at {path}"));
    String::from_utf8(entry.3.clone()).expect("utf-8 content")
}

fn sample_tree() -> FileSystemTree {
    FileSystemTree::Directory(vec![
        (
            "README.md".to_string(),
            FileSystemTree::File(b"# Example Rust project".to_vec()),
        ),
        (
            "src".to_string(),
            FileSystemTree::Directory(vec![(
                "main.rs".to_string(),
                FileSystemTree::File(b"fn main() {}".to_vec()),
            )]),
        ),
    ])
}

#[test]
fn append_to_tar() {
    let tree = sample_tree();

    let mut builder = Builder::new();
    tree.append_to_tar(&mut builder, "foo/bar")
        .expect("append tree to tar");

    let content = builder.into_inner().expect("content");
    let entries = read_entries(&content);
    assert_eq!(entries.len(), 2);
    assert_eq!(
        text_of(&entries, "foo/bar/README.md"),
        "# Example Rust project"
    );
    assert_eq!(text_of(&entries, "foo/bar/src/main.rs"), "fn main() {}");
}

#[test]
fn append_to_tar_mergeable() {
    let tree: MergeableFileSystemTree = FileSystemTree::Directory(vec![
        (
            "foo/bar/README.md".to_string(),
            FileSystemTree::File(b"# Example Rust project".to_vec()),
        ),
        (
            "foo/bar/src/main.rs".to_string(),
            FileSystemTree::File(b"fn main() {}".to_vec()),
        ),
    ])
    .into();

    let mut builder = Builder::new();
    tree.append_to_tar(&mut builder, "")
        .expect("append tree to tar");

    let content = builder.into_inner().expect("content");
    let entries = read_entries(&content);
    assert_eq!(entries.len(), 2);
    assert_eq!(
        text_of(&entries, "foo/bar/README.md"),
        "# Example Rust project"
    );
    assert_eq!(text_of(&entries, "foo/bar/src/main.rs"), "fn main() {}");
}

#[test]
fn append_tree() {
    let tree = sample_tree();

    let mut builder = Builder::new();
    builder
        .append_tree(&tree, "")
        .expect("append tree to tar using AppendTree");

    let content = builder.into_inner().expect("content");
    let entries = read_entries(&content);
    assert_eq!(text_of(&entries, "README.md"), "# Example Rust project");
    assert_eq!(text_of(&entries, "src/main.rs"), "fn main() {}");
}

#[test]
fn build_tar() {
    let tree = sample_tree();

    let tar: Vec<u8> = tree.build_tar().expect("build a tar archive from a tree");

    let entries = read_entries(&tar);
    assert_eq!(text_of(&entries, "README.md"), "# Example Rust project");
    assert_eq!(text_of(&entries, "src/main.rs"), "fn main() {}");
}

fn scenario_tree() -> FileSystemTree {
    FileSystemTree::Directory(vec![
        (
            "README.md".to_string(),
            FileSystemTree::File(b"# Example".to_vec()),
        ),
        (
            "src".to_string(),
            FileSystemTree::Directory(vec![(
                "main.rs".to_string(),
                FileSystemTree::File(b"fn main() {}".to_vec()),
            )]),
        ),
    ])
}

#[test]
fn append_at_nested_path_prefixes_every_entry() {
    let tree = scenario_tree();
    let mut builder = Builder::new();
    tree.append_to_tar(&mut builder, "foo/bar").expect("append");
    let content = builder.into_inner().expect("content");
    let entries = read_entries(&content);
    let paths: Vec<&str> = entries.iter().map(|e| e.0.as_str()).collect();
    assert_eq!(paths, ["foo/bar/README.md", "foo/bar/src/main.rs"]);
    assert_eq!(text_of(&entries, "foo/bar/README.md"), "# Example");
    assert_eq!(text_of(&entries, "foo/bar/src/main.rs"), "fn main() {}");
}

#[test]
fn append_at_root_adds_no_leading_separator() {
    let tree = scenario_tree();
    let mut builder = Builder::new();
    tree.append_to_tar(&mut builder, "").expect("append");
    let content = builder.into_inner().expect("content");
    let entries = read_entries(&content);
    let paths: Vec<&str> = entries.iter().map(|e| e.0.as_str()).collect();
    assert_eq!(paths, ["README.md", "src/main.rs"]);
}

#[test]
fn append_at_dot_equals_append_at_empty() {
    let tree = scenario_tree();

    let mut at_empty = Builder::new();
    tree.append_to_tar(&mut at_empty, "").expect("append");
    let empty_bytes = at_empty.into_inner().expect("content");

    let mut at_dot = Builder::new();
    tree.append_to_tar(&mut at_dot, ".").expect("append");
    let dot_bytes = at_dot.into_inner().expect("content");

    let empty_paths: Vec<String> = read_entries(&empty_bytes).into_iter().map(|e| e.0).collect();
    let dot_paths: Vec<String> = read_entries(&dot_bytes).into_iter().map(|e| e.0).collect();
    assert_eq!(empty_paths, dot_paths);
    assert_eq!(empty_paths, ["README.md", "src/main.rs"]);
}

#[test]
fn build_tar_equals_append_at_root_then_finish() {
    let tree = scenario_tree();

    let built: Vec<u8> = tree.build_tar().expect("build");

    let mut builder = Builder::new();
    tree.append_to_tar(&mut builder, "").expect("append");
    let appended = builder.into_inner().expect("content");

    assert_eq!(built, appended);
}

#[test]
fn empty_directory_builds_valid_empty_archive() {
    let tree = FileSystemTree::Directory(Vec::new());
    let tar: Vec<u8> = tree.build_tar().expect("build");
    // Nothing but the format's trailing zero blocks.
    assert_eq!(tar.len(), 1024);
    assert!(tar.iter().all(|b| *b == 0));
    assert_eq!(read_entries(&tar).len(), 0);
}

#[test]
fn size_field_equals_content_length_and_mode_is_0644() {
    let tree = FileSystemTree::Directory(vec![
        ("a".to_string(), FileSystemTree::File(b"12345".to_vec())),
        ("b".to_string(), FileSystemTree::File(Vec::new())),
    ]);
    let tar: Vec<u8> = tree.build_tar().expect("build");
    let entries = read_entries(&tar);
    assert_eq!(entries.len(), 2);
    for (path, size, mode, data) in &entries {
        assert_eq!(*size, data.len() as u64, "size field of {path}");
        assert_eq!(*mode, 0o644, "mode field of {path}");
    }
    assert_eq!(entries[0].3, b"12345".to_vec());
    assert_eq!(entries[1].3, Vec::<u8>::new());
}

#[test]
fn append_file_to_tar_writes_one_entry() {
    let mut builder = Builder::new();
    append_file_to_tar(&mut builder, "notes/hello.txt", b"hello world").expect("append file");
    let content = builder.into_inner().expect("content");
    let entries = read_entries(&content);
    assert_eq!(entries.len(), 1);
    assert_eq!(entries[0].0, "notes/hello.txt");
    assert_eq!(entries[0].1, 11);
    assert_eq!(entries[0].2, 0o644);
    assert_eq!(entries[0].3, b"hello world".to_vec());
}

#[test]
fn file_tree_at_path_emits_single_entry_at_that_path() {
    let tree = FileSystemTree::File(b"lone".to_vec());
    let mut builder = Builder::new();
    tree.append_to_tar(&mut builder, "just/a/file").expect("append");
    let content = builder.into_inner().expect("content");
    let entries = read_entries(&content);
    assert_eq!(entries.len(), 1);
    assert_eq!(entries[0].0, "just/a/file");
    assert_eq!(entries[0].3, b"lone".to_vec());
}

#[test]
fn entries_come_in_depth_first_name_order() {
    let tree = FileSystemTree::Directory(vec![
        (
            "alpha".to_string(),
            FileSystemTree::Directory(vec![
                ("one".to_string(), FileSystemTree::File(b"1".to_vec())),
                ("two".to_string(), FileSystemTree::File(b"2".to_vec())),
            ]),
        ),
        ("beta".to_string(), FileSystemTree::File(b"3".to_vec())),
    ]);
    let tar: Vec<u8> = tree.build_tar().expect("build");
    let paths: Vec<String> = read_entries(&tar).into_iter().map(|e| e.0).collect();
    assert_eq!(paths, ["alpha/one", "alpha/two", "beta"]);
}

#[test]
fn rejected_path_errors_and_leaves_builder_unchanged() {
    let mut builder = Builder::new();
    // `..` components are rejected by the builder's path validation,
    // before anything is written.
    let denied = append_file_to_tar(&mut builder, "..", b"escape");
    assert!(denied.is_err());
    let denied = append_file_to_tar(&mut builder, "a/../b", b"escape");
    assert!(denied.is_err());
    let denied = append_file_to_tar(&mut builder, "", b"nameless");
    assert!(denied.is_err());
    // The failed appends left no trace: finishing yields the empty archive.
    let content = builder.into_inner().expect("content");
    assert_eq!(content.len(), 1024);
    assert!(content.iter().all(|b| *b == 0));
}

#[test]
fn tree_with_parent_component_fails_to_build() {
    let tree = FileSystemTree::Directory(vec![(
        "..".to_string(),
        FileSystemTree::File(b"escape".to_vec()),
    )]);
    assert!(tree.build_tar().is_err());
}

#[test]
fn root_sentinels_are_empty_and_dot() {
    assert!(tree_to_archive::tar::is_root_str(""));
    assert!(tree_to_archive::tar::is_root_str("."));
    assert!(!tree_to_archive::tar::is_root_str("a"));
    assert!(!tree_to_archive::tar::is_root_str("./"));
    assert!(!tree_to_archive::tar::is_root_str("foo/bar"));
}

#[test]
fn mergeable_round_trips_through_from() {
    let tree = scenario_tree();
    let mergeable = MergeableFileSystemTree::from(tree);
    let back: FileSystemTree = mergeable.into();
    let tar: Vec<u8> = back.build_tar().expect("build");
    let paths: Vec<String> = read_entries(&tar).into_iter().map(|e| e.0).collect();
    assert_eq!(paths, ["README.md", "src/main.rs"]);
}

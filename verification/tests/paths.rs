use std::rc::Rc;
use std::sync::Arc;
use tree_to_archive::misc::{ArchiveRoot, JoinPath};

#[test]
fn join_inserts_single_separator() {
    let base = String::from("dir");
    let joined = base.join(&String::from("file.txt"));
    assert_eq!(joined, "dir/file.txt");

    let base = String::from("parent/child");
    let joined = base.join(&String::from("grandchild"));
    assert_eq!(joined, "parent/child/grandchild");
}

#[test]
fn join_is_associative() {
    let a = String::from("a");
    let b = String::from("b");
    let c = String::from("c");
    let left = a.join(&b).join(&c);
    let right = a.join(&b.join(&c));
    assert_eq!(left, right);
    assert_eq!(left, "a/b/c");
}

#[test]
fn archive_root_is_empty() {
    let root: String = ArchiveRoot::archive_root();
    assert_eq!(root, "");

    let root: Box<String> = ArchiveRoot::archive_root();
    assert_eq!(*root, "");

    let root: Rc<String> = ArchiveRoot::archive_root();
    assert_eq!(*root, "");

    let root: Arc<String> = ArchiveRoot::archive_root();
    assert_eq!(*root, "");
}

#[test]
fn wrapper_paths_delegate_join() {
    let base: Box<String> = Box::new(String::from("x"));
    let child: Box<String> = Box::new(String::from("y"));
    assert_eq!(*base.join(&child), "x/y");

    let base: Rc<String> = Rc::new(String::from("x"));
    let child: Rc<String> = Rc::new(String::from("y"));
    assert_eq!(*base.join(&child), "x/y");

    let base: Arc<String> = Arc::new(String::from("x"));
    let child: Arc<String> = Arc::new(String::from("y"));
    assert_eq!(*base.join(&child), "x/y");
}

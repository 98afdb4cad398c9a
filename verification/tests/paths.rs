use kakvide::paths::{join_path, join_unix_paths, same_path, split_unix_path};

fn list(items: &[&str]) -> Vec<Vec<u8>> {
    items.iter().map(|item| item.as_bytes().to_vec()).collect()
}

#[test]
fn parts_are_joined_by_one_separator() {
    assert_eq!(join_path(b"/a", b"b"), b"/a/b".to_vec());
    assert_eq!(join_path(b"/a/", b"b"), b"/a/b".to_vec());
    assert_eq!(join_path(b"", b"b"), b"b".to_vec());
    assert_eq!(join_path(b"/a", b"/b"), b"/b".to_vec());
    assert_eq!(join_path(b"/a", b""), b"/a/".to_vec());
}

#[test]
fn search_paths_are_split_as_they_were_joined() {
    let entries = list(&["/a", "", "~/b"]);
    let joined = join_unix_paths(entries.clone());
    assert_eq!(joined, b"/a::~/b".to_vec());
    assert_eq!(split_unix_path(&joined), entries);
    assert_eq!(split_unix_path(b""), list(&[""]));
    assert_eq!(split_unix_path(b":"), list(&["", ""]));
    assert_eq!(join_unix_paths(Vec::new()), Vec::<u8>::new());
}

#[test]
fn paths_are_the_same_by_their_parts() {
    assert!(same_path(b"a//b/./c/", b"a/b/c"));
    assert!(same_path(b"/", b"//"));
    assert!(!same_path(b"./a", b"a"));
    assert!(!same_path(b"/a", b"a"));
    assert!(!same_path(b"a/../b", b"b"));
    assert!(same_path(b"", b""));
}

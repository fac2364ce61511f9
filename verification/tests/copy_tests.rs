use cupey::copying::{copier, empty_dir, visit_dirs};
use cupey::errors::ErrorKind;
use cupey::tree::{duplicate, lookup_path, Entry, FsNode};

fn file(contents: &str) -> FsNode {
    FsNode::File { contents: contents.as_bytes().to_vec() }
}

fn dir(entries: Vec<(&str, FsNode)>) -> FsNode {
    FsNode::Dir {
        entries: entries
            .into_iter()
            .map(|(name, node)| Entry { name: name.as_bytes().to_vec(), node })
            .collect(),
    }
}

fn path(components: &[&str]) -> Vec<Vec<u8>> {
    components.iter().map(|c| c.as_bytes().to_vec()).collect()
}

fn contents_at<'a>(n: &'a FsNode, p: &[&str]) -> Option<&'a Vec<u8>> {
    match lookup_path(n, &path(p)) {
        Some(FsNode::File { contents }) => Some(contents),
        _ => None,
    }
}

fn is_dir_at(n: &FsNode, p: &[&str]) -> bool {
    matches!(lookup_path(n, &path(p)), Some(FsNode::Dir { .. }))
}

#[test]
fn visit_dirs_works() {
    let src = dir(vec![
        ("random_text_1.txt", file("Lorem ipsum")),
        ("random_text_2.txt", file("dolor sit amet")),
        ("nested", dir(vec![("random_text_3.txt", file("consectetur"))])),
    ]);
    let mut to_dir = dir(vec![]);
    visit_dirs(&src, &mut to_dir, true).unwrap();
    // The mirror of the source in an empty destination is the source
    // tree itself: same entries, same layout, same bytes.
    assert_eq!(to_dir, src);
}

#[test]
fn copier_works() {
    let name = "random_text_1.txt".as_bytes().to_vec();
    let text = "Lorem ipsum".as_bytes().to_vec();
    let mut dest_dir = dir(vec![]);
    copier(&name, &text, &mut dest_dir, false).unwrap();
    let file_created = contents_at(&dest_dir, &["random_text_1.txt"]).is_some();
    assert!(file_created);
    assert_eq!(contents_at(&dest_dir, &["random_text_1.txt"]).unwrap(), &text);
}

#[test]
fn test_copier_overwrite_works() {
    // The destination already holds some_text.txt with other words in
    // it; copying with overwrite replaces the whole contents.
    let mut dest_dir = dir(vec![("some_text.txt", file("camp"))]);
    let name = "some_text.txt".as_bytes().to_vec();
    let text = "shell".as_bytes().to_vec();
    copier(&name, &text, &mut dest_dir, true).unwrap();
    assert_eq!(contents_at(&dest_dir, &["some_text.txt"]).unwrap(), &text);
}

#[test]
fn copier_without_overwrite_skips() {
    let mut dest_dir = dir(vec![("some_text.txt", file("camp"))]);
    let name = "some_text.txt".as_bytes().to_vec();
    let text = "shell".as_bytes().to_vec();
    copier(&name, &text, &mut dest_dir, false).unwrap();
    assert_eq!(
        contents_at(&dest_dir, &["some_text.txt"]).unwrap(),
        &"camp".as_bytes().to_vec(),
    );
}

#[test]
fn mirrors_files_and_subdirectories() {
    // Source {a.txt: "hello", sub/b.txt: "world"} into an empty
    // destination, without overwrite.
    let src = dir(vec![
        ("a.txt", file("hello")),
        ("sub", dir(vec![("b.txt", file("world"))])),
    ]);
    let mut dst = dir(vec![]);
    visit_dirs(&src, &mut dst, false).unwrap();
    assert_eq!(contents_at(&dst, &["a.txt"]).unwrap(), &"hello".as_bytes().to_vec());
    assert_eq!(contents_at(&dst, &["sub", "b.txt"]).unwrap(), &"world".as_bytes().to_vec());
    assert!(is_dir_at(&dst, &[]));
    assert!(is_dir_at(&dst, &["sub"]));
}

#[test]
fn existing_file_kept_without_overwrite() {
    // The destination already has a.txt: "old"; without overwrite the
    // copy succeeds and leaves it untouched.
    let src = dir(vec![("a.txt", file("new"))]);
    let mut dst = dir(vec![("a.txt", file("old"))]);
    visit_dirs(&src, &mut dst, false).unwrap();
    assert_eq!(contents_at(&dst, &["a.txt"]).unwrap(), &"old".as_bytes().to_vec());
}

#[test]
fn existing_file_replaced_with_overwrite() {
    // The destination already has a.txt: "old"; with overwrite its
    // contents become the source's "new".
    let src = dir(vec![("a.txt", file("new"))]);
    let mut dst = dir(vec![("a.txt", file("old"))]);
    visit_dirs(&src, &mut dst, true).unwrap();
    assert_eq!(contents_at(&dst, &["a.txt"]).unwrap(), &"new".as_bytes().to_vec());
}

#[test]
fn overwrite_replaces_longer_contents() {
    // Old contents longer than the new ones: fully replaced, not
    // partially overwritten.
    let src = dir(vec![("a.txt", file("hi"))]);
    let mut dst = dir(vec![("a.txt", file("a much longer text than before"))]);
    visit_dirs(&src, &mut dst, true).unwrap();
    assert_eq!(contents_at(&dst, &["a.txt"]).unwrap(), &"hi".as_bytes().to_vec());
}

#[test]
fn copy_twice_is_idempotent() {
    let src = dir(vec![
        ("a.txt", file("alpha")),
        ("sub", dir(vec![("b.txt", file("beta"))])),
    ]);
    let mut dst = dir(vec![("keep.txt", file("kept"))]);
    visit_dirs(&src, &mut dst, true).unwrap();
    let after_once = dst;
    let mut dst_again = duplicate(&after_once);
    visit_dirs(&src, &mut dst_again, true).unwrap();
    assert_eq!(dst_again, after_once);
}

#[test]
fn unrelated_destination_entries_survive() {
    let src = dir(vec![("a.txt", file("x"))]);
    let mut dst = dir(vec![("c.txt", file("keep"))]);
    visit_dirs(&src, &mut dst, true).unwrap();
    assert_eq!(contents_at(&dst, &["c.txt"]).unwrap(), &"keep".as_bytes().to_vec());
    assert_eq!(contents_at(&dst, &["a.txt"]).unwrap(), &"x".as_bytes().to_vec());
}

#[test]
fn rejects_source_file() {
    let src = file("not a directory");
    let mut dst = dir(vec![]);
    let err = visit_dirs(&src, &mut dst, false).unwrap_err();
    assert_eq!(err.error_kind(), ErrorKind::SourceIsFile);
    assert_eq!(dst, dir(vec![]));
}

#[test]
fn rejects_destination_file() {
    let src = dir(vec![("a.txt", file("x"))]);
    let mut dst = file("in the way");
    let err = visit_dirs(&src, &mut dst, true).unwrap_err();
    assert_eq!(err.error_kind(), ErrorKind::DestinationIsFile);
    assert_eq!(dst, file("in the way"));
}

#[test]
fn rejects_empty_source() {
    let src = dir(vec![]);
    let mut dst = dir(vec![]);
    let err = visit_dirs(&src, &mut dst, false).unwrap_err();
    assert_eq!(err.error_kind(), ErrorKind::EmptySource);
    assert_eq!(dst, dir(vec![]));
}

#[test]
fn rejects_empty_subdirectory_and_keeps_earlier_work() {
    // The first entry is copied; the walk then aborts on the empty
    // subdirectory, leaving behind what it already did -- including
    // the destination directory created for the empty source one.
    let src = dir(vec![("a.txt", file("x")), ("sub", dir(vec![]))]);
    let mut dst = dir(vec![]);
    let err = visit_dirs(&src, &mut dst, false).unwrap_err();
    assert_eq!(err.error_kind(), ErrorKind::EmptySource);
    assert_eq!(contents_at(&dst, &["a.txt"]).unwrap(), &"x".as_bytes().to_vec());
    assert!(is_dir_at(&dst, &["sub"]));
    assert_eq!(lookup_path(&dst, &path(&["sub"])), Some(&dir(vec![])));
}

#[test]
fn rejects_destination_file_in_subtree() {
    // A file where a destination subdirectory should be aborts the
    // walk of that subtree.
    let src = dir(vec![("sub", dir(vec![("b.txt", file("y"))]))]);
    let mut dst = dir(vec![("sub", file("a file, not a dir"))]);
    let err = visit_dirs(&src, &mut dst, true).unwrap_err();
    assert_eq!(err.error_kind(), ErrorKind::DestinationIsFile);
    assert_eq!(
        contents_at(&dst, &["sub"]).unwrap(),
        &"a file, not a dir".as_bytes().to_vec(),
    );
}

#[test]
fn overwriting_directory_with_file_fails() {
    let src = dir(vec![("a.txt", file("x"))]);
    let mut dst = dir(vec![("a.txt", dir(vec![("inner.txt", file("z"))]))]);
    let err = visit_dirs(&src, &mut dst, true).unwrap_err();
    assert_eq!(err.error_kind(), ErrorKind::IoFailure);
    // The directory in the way is still there, untouched.
    assert_eq!(contents_at(&dst, &["a.txt", "inner.txt"]).unwrap(), &"z".as_bytes().to_vec());
}

#[test]
fn directory_in_file_place_skipped_without_overwrite() {
    // Without overwrite, an existing entry of the file's name -- even
    // a directory -- makes the copy of that file a no-op.
    let src = dir(vec![("a.txt", file("x"))]);
    let mut dst = dir(vec![("a.txt", dir(vec![("inner.txt", file("z"))]))]);
    visit_dirs(&src, &mut dst, false).unwrap();
    assert!(is_dir_at(&dst, &["a.txt"]));
    assert_eq!(contents_at(&dst, &["a.txt", "inner.txt"]).unwrap(), &"z".as_bytes().to_vec());
}

#[test]
fn empty_dir_recognizes_directories() {
    assert!(empty_dir(&dir(vec![])));
    assert!(!empty_dir(&dir(vec![("a.txt", file("x"))])));
    assert!(!empty_dir(&file("contents")));
}

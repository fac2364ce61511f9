use cupey::errors::{CupeyError, ErrorKind};
use cupey::staging::FileWrapper;
use cupey::tree::{bytes_equal, copy_bytes};

#[test]
fn cupey_error_keeps_message_and_kind() {
    let err = CupeyError::new(String::from("disk went away"), ErrorKind::IoFailure);
    assert_eq!(err.error_kind(), ErrorKind::IoFailure);
    assert_eq!(err.message(), "disk went away");
}

#[test]
fn error_kinds_are_distinct() {
    assert_ne!(ErrorKind::SourceIsFile, ErrorKind::DestinationIsFile);
    assert_ne!(ErrorKind::EmptySource, ErrorKind::IoFailure);
}

#[test]
fn file_wrapper_records_acquisition() {
    let wrapper = FileWrapper::new(String::from("/tmp/some_text.txt"), true);
    assert_eq!(wrapper.file_path, "/tmp/some_text.txt");
    assert!(wrapper.exists);
    assert!(wrapper.temp_file_path.is_none());
}

#[test]
fn byte_helpers_compare_and_copy() {
    let a = b"random_text_1.txt".to_vec();
    let b = b"random_text_1.txt".to_vec();
    let c = b"random_text_2.txt".to_vec();
    assert!(bytes_equal(&a, &b));
    assert!(!bytes_equal(&a, &c));
    let copied = copy_bytes(&c);
    assert_eq!(copied, c);
}

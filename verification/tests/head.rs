//! Moving `HEAD`.
use branch_integration::head::{update_head_reference, PreviousValue, RefLog, Target};
use branch_integration::object_id::ObjectId;

#[test]
fn head_is_changed_whatever_its_value() {
    let target = || Target::Symbolic(b"refs/heads/gitbutler/edit".to_vec());
    let edit = update_head_reference(target(), false, "checkout", b"to edit", 1);
    assert_eq!(edit.name, b"HEAD");
    assert_eq!(edit.new, target());
    assert_eq!(edit.expected, PreviousValue::Any);
    assert!(!edit.deref);
    assert_eq!(edit.log.mode, RefLog::AndReference);
    assert!(!edit.log.force_create_reflog);
    assert_eq!(edit.log.message, b"checkout: to edit");
}

#[test]
fn the_log_tells_the_kind_of_commit() {
    let message = |title: &[u8], num_parents| {
        let target = Target::Object(ObjectId { bytes: [1; 20] });
        let edit = update_head_reference(target, true, "commit", title, num_parents);
        assert!(edit.deref);
        String::from_utf8(edit.log.message).unwrap()
    };
    assert_eq!(message(b"first", 0), "commit (initial): first");
    assert_eq!(message(b"next", 1), "commit: next");
    assert_eq!(message(b"both", 2), "commit (merge): both");
    assert_eq!(message(b"all", 3), "commit (merge): all");
}

#[test]
fn the_log_takes_the_title_of_a_message() {
    let target = Target::Object(ObjectId { bytes: [1; 20] });
    let edit = update_head_reference(target, true, "amend", b"a title\non two lines\n\nbody\n", 1);
    assert_eq!(edit.log.message, b"amend: a title on two lines");
}

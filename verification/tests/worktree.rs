//! Collecting the state of the index and the worktree.
use branch_integration::object_id::ObjectId;
use branch_integration::repository::{Query, Repository, WorktreeFileFact};
use branch_integration::stop::Stop;
use branch_integration::worktree::{
    DirectoryStatus, EntryKind, EntryStatus, StatusItem, TreeEdit, WorktreeFile,
};

fn id(n: u8) -> ObjectId {
    ObjectId { bytes: [n; 20] }
}

fn path(name: &str) -> Vec<u8> {
    name.as_bytes().to_vec()
}

fn modified(name: &str, status: EntryStatus) -> StatusItem {
    StatusItem::WorktreeModification { path: path(name), status }
}

fn untracked(name: &str) -> StatusItem {
    StatusItem::DirectoryContents { path: path(name), seen: DirectoryStatus::Untracked }
}

fn remove(name: &str) -> TreeEdit {
    TreeEdit::Remove { path: path(name) }
}

fn upsert(name: &str, kind: EntryKind, n: u8) -> TreeEdit {
    TreeEdit::Upsert { path: path(name), kind, id: id(n) }
}

/// The edits for a status, where files of the worktree are blobs of a given id and size.
fn edits(status: Vec<StatusItem>, files: &[(&str, u8, u64)], limit: u64) -> Vec<TreeEdit> {
    let mut repo = Repository::new();
    assert_eq!(repo.create_wd_tree(limit), Err(Stop::Unknown(Query::Status)));
    repo.status = Some(status);
    for _ in 0..20 {
        match repo.create_wd_tree(limit) {
            Ok(edits) => return edits,
            Err(Stop::Unknown(Query::WorktreeFile { path })) => {
                let file = files.iter().find(|(name, _, _)| name.as_bytes() == path).map(
                    |(_, n, len)| WorktreeFile { id: id(*n), kind: EntryKind::Blob, len: *len },
                );
                repo.worktree_files.push(WorktreeFileFact { path, file });
            }
            Err(other) => panic!("unexpected: {other:?}"),
        }
    }
    panic!("the operation keeps asking");
}

#[test]
fn index_changes_become_edits() {
    let status = vec![
        StatusItem::IndexDeletion { path: path("gone") },
        StatusItem::IndexAddition { path: path("new"), mode: 0o100644, id: id(1) },
        StatusItem::IndexModification { path: path("changed"), mode: 0o100755, id: id(2) },
    ];
    assert_eq!(
        edits(status, &[], 0),
        vec![
            remove("gone"),
            upsert("new", EntryKind::Blob, 1),
            upsert("changed", EntryKind::BlobExecutable, 2),
        ]
    );
}

#[test]
fn modes_of_the_index_tell_kinds() {
    let kind = |mode: u32| {
        let status = vec![StatusItem::IndexAddition { path: path("x"), mode, id: id(1) }];
        match edits(status, &[], 0).pop() {
            Some(TreeEdit::Upsert { kind, .. }) => Some(kind),
            _ => None,
        }
    };
    assert_eq!(kind(0o100644), Some(EntryKind::Blob));
    assert_eq!(kind(0o100755), Some(EntryKind::BlobExecutable));
    assert_eq!(kind(0o120000), Some(EntryKind::Link));
    assert_eq!(kind(0o160000), Some(EntryKind::Commit));
    assert_eq!(kind(0o040000), Some(EntryKind::Tree));
    assert_eq!(kind(0o000000), None);
    assert_eq!(kind(0o010644), None);
}

#[test]
fn the_worktree_prevails_over_the_index() {
    let status = vec![
        modified("a", EntryStatus::Modification),
        modified("b", EntryStatus::Removed),
        StatusItem::IndexModification { path: path("a"), mode: 0o100644, id: id(1) },
        StatusItem::IndexAddition { path: path("b"), mode: 0o100644, id: id(2) },
        StatusItem::IndexDeletion { path: path("a") },
    ];
    assert_eq!(
        edits(status, &[("a", 9, 1)], 0),
        vec![upsert("a", EntryKind::Blob, 9), remove("b")]
    );
}

#[test]
fn all_kinds_of_worktree_changes_are_taken() {
    let status = vec![
        modified("type", EntryStatus::TypeChange),
        modified("content", EntryStatus::Modification),
        modified("conflict", EntryStatus::Conflict),
        modified("announced", EntryStatus::IntentToAdd),
        modified("touched", EntryStatus::NeedsUpdate),
        modified("sub", EntryStatus::SubmoduleModification { checked_out_head: Some(id(7)) }),
        modified("other-sub", EntryStatus::SubmoduleModification { checked_out_head: None }),
    ];
    let files = [("type", 1, 1), ("content", 2, 1), ("conflict", 3, 1), ("announced", 4, 1)];
    assert_eq!(
        edits(status, &files, 0),
        vec![
            upsert("type", EntryKind::Blob, 1),
            upsert("content", EntryKind::Blob, 2),
            upsert("conflict", EntryKind::Blob, 3),
            upsert("announced", EntryKind::Blob, 4),
            upsert("sub", EntryKind::Commit, 7),
        ]
    );
}

#[test]
fn untracked_files_come_last() {
    let status = vec![
        untracked("new"),
        modified("a", EntryStatus::Modification),
        StatusItem::DirectoryContents { path: path("p"), seen: DirectoryStatus::Pruned },
        StatusItem::DirectoryContents { path: path("i"), seen: DirectoryStatus::Ignored },
        StatusItem::DirectoryContents { path: path("k"), seen: DirectoryStatus::Known },
    ];
    assert_eq!(
        edits(status, &[("new", 1, 1), ("a", 2, 1)], 0),
        vec![upsert("a", EntryKind::Blob, 2), upsert("new", EntryKind::Blob, 1)]
    );
}

#[test]
fn large_untracked_files_are_left_out() {
    let status = || vec![untracked("small"), untracked("large")];
    let files = [("small", 1, 10), ("large", 2, 11)];
    assert_eq!(edits(status(), &files, 10), vec![upsert("small", EntryKind::Blob, 1)]);
    assert_eq!(
        edits(status(), &files, 0),
        vec![upsert("small", EntryKind::Blob, 1), upsert("large", EntryKind::Blob, 2)]
    );
}

#[test]
fn the_limit_does_not_apply_to_tracked_files() {
    let changes = [
        EntryStatus::Modification,
        EntryStatus::TypeChange,
        EntryStatus::Conflict,
        EntryStatus::IntentToAdd,
    ];
    for status in changes {
        for limit in [0, 1, 10, 11, u64::MAX] {
            let items = vec![
                modified("tracked", status),
                StatusItem::IndexModification { path: path("tracked"), mode: 0o100644, id: id(8) },
                untracked("large"),
            ];
            let made = edits(items, &[("tracked", 1, 11), ("large", 2, 11)], limit);
            assert_eq!(made[0], upsert("tracked", EntryKind::Blob, 1));
            let untracked_is_kept = limit == 0 || limit >= 11;
            assert_eq!(made.len(), if untracked_is_kept { 2 } else { 1 });
        }
    }
}

#[test]
fn the_index_does_not_matter_where_the_worktree_is_taken() {
    let addition =
        || StatusItem::IndexAddition { path: path("a"), mode: 0o100644, id: id(8) };
    let items = vec![addition(), modified("a", EntryStatus::Modification), addition()];
    assert_eq!(
        edits(items, &[("a", 1, 1)], 0),
        vec![upsert("a", EntryKind::Blob, 8), upsert("a", EntryKind::Blob, 1)]
    );
}

#[test]
fn a_file_that_cannot_be_stored_is_removed() {
    let status = vec![modified("fifo", EntryStatus::TypeChange), untracked("socket")];
    assert_eq!(edits(status, &[], 0), vec![remove("fifo"), remove("socket")]);
}

//! What holds of every tree of the index and the worktree.
use crate::repository::Repository;
use crate::stop::StopView;
use crate::worktree::{
    progress_through, untracked_edit, with_untracked, worktree_edits, DirectoryStatus, EntryKind,
    EntryStatus, StatusItem, TreeEditView,
};
use vstd::prelude::*;

verus! {

/// The path that a difference concerns.
pub open spec fn item_path(item: StatusItem) -> Seq<u8> {
    match item {
        StatusItem::IndexDeletion { path } => path@,
        StatusItem::IndexAddition { path, mode: _, id: _ } => path@,
        StatusItem::IndexModification { path, mode: _, id: _ } => path@,
        StatusItem::WorktreeModification { path, status: _ } => path@,
        StatusItem::DirectoryContents { path, seen: _ } => path@,
    }
}

/// Whether a difference is one between `HEAD` and the index.
pub open spec fn is_index_change(item: StatusItem) -> bool {
    item is IndexDeletion || item is IndexAddition || item is IndexModification
}

/// The edit of a path that counts: the last one.
pub open spec fn last_edit(edits: Seq<TreeEditView>, path: Seq<u8>) -> Option<TreeEditView>
    decreases edits.len(),
{
    if edits.len() == 0 {
        None
    } else if edits.last().path() == path {
        Some(edits.last())
    } else {
        last_edit(edits.drop_last(), path)
    }
}

/// The edit by which a difference of the worktree is taken into the tree, `None` if its state is
/// not taken.
pub open spec fn taken_edit(repo: &Repository, item: StatusItem) -> Option<TreeEditView> {
    match item {
        StatusItem::WorktreeModification { path, status } => match status {
            EntryStatus::Removed => Some(TreeEditView::Remove { path: path@ }),
            EntryStatus::TypeChange
            | EntryStatus::Modification
            | EntryStatus::Conflict
            | EntryStatus::IntentToAdd => match repo.spec_worktree_file(path@) {
                Ok(Some(file)) => Some(
                    TreeEditView::Upsert { path: path@, kind: file.kind, id: file.id },
                ),
                _ => None,
            },
            EntryStatus::SubmoduleModification { checked_out_head } => match checked_out_head {
                Some(id) => Some(
                    TreeEditView::Upsert { path: path@, kind: EntryKind::Commit, id },
                ),
                None => None,
            },
            EntryStatus::NeedsUpdate => None,
        },
        _ => None,
    }
}

/// Whether a difference lists a path as untracked.
pub open spec fn is_untracked(item: StatusItem) -> bool {
    item matches StatusItem::DirectoryContents { path: _, seen } && seen
        == DirectoryStatus::Untracked
}

/// Whether the state of a path is the one that the `j`th difference takes from the worktree, and
/// what is reported of the path after that are changes of the index only.
pub open spec fn decides(repo: &Repository, items: Seq<StatusItem>, j: int) -> bool {
    &&& 0 <= j < items.len()
    &&& taken_edit(repo, items[j]) is Some
    &&& forall|k: int|
        j < k < items.len() && item_path(#[trigger] items[k]) == item_path(items[j])
            ==> is_index_change(items[k])
}

/// After all differences, the last edit of a path is the one by which its state in the worktree
/// is taken, and that state stays taken.
proof fn lemma_taken_state_stays(repo: &Repository, items: Seq<StatusItem>, j: int)
    requires
        progress_through(repo, items) is Ok,
        decides(repo, items, j),
    ensures
        last_edit(progress_through(repo, items)->Ok_0.edits, item_path(items[j])) == taken_edit(
            repo,
            items[j],
        ),
        progress_through(repo, items)->Ok_0.taken.contains(item_path(items[j])),
    decreases items.len(),
{
    let path = item_path(items[j]);
    let after = progress_through(repo, items)->Ok_0;
    let before = progress_through(repo, items.drop_last())->Ok_0;
    let last = items[items.len() - 1];
    if j == items.len() - 1 {
        assert(after.taken[after.taken.len() - 1] == path);
        assert(after.edits.last().path() == path);
    } else {
        assert forall|k: int|
            j < k < items.drop_last().len() && item_path(#[trigger] items.drop_last()[k])
                == item_path(items.drop_last()[j]) implies is_index_change(
            items.drop_last()[k],
        ) by {
            assert(items[k] == items.drop_last()[k]);
        }
        lemma_taken_state_stays(repo, items.drop_last(), j);
        if item_path(last) == path {
            assert(is_index_change(last));
            assert(after == before);
        } else {
            if after.edits != before.edits {
                assert(after.edits.drop_last() =~= before.edits);
                assert(after.edits.last().path() != path);
            }
            let i = choose|i: int| 0 <= i < before.taken.len() && before.taken[i] == path;
            assert(after.taken[i] == path);
        }
    }
}

/// A path that is not listed as untracked is not put off.
proof fn lemma_not_put_off(repo: &Repository, items: Seq<StatusItem>, path: Seq<u8>)
    requires
        progress_through(repo, items) is Ok,
        forall|k: int|
            0 <= k < items.len() && item_path(#[trigger] items[k]) == path ==> !is_untracked(
                items[k],
            ),
    ensures
        !progress_through(repo, items)->Ok_0.untracked.contains(path),
    decreases items.len(),
{
    if items.len() > 0 {
        assert forall|k: int|
            0 <= k < items.drop_last().len() && item_path(#[trigger] items.drop_last()[k])
                == path implies !is_untracked(items.drop_last()[k]) by {
            assert(items[k] == items.drop_last()[k]);
        }
        lemma_not_put_off(repo, items.drop_last(), path);
        let before = progress_through(repo, items.drop_last())->Ok_0.untracked;
        let after = progress_through(repo, items)->Ok_0.untracked;
        let last = items[items.len() - 1];
        assert(item_path(last) == path ==> !is_untracked(last));
        if after.contains(path) {
            let i = choose|i: int| 0 <= i < after.len() && after[i] == path;
            if i < before.len() {
                assert(before[i] == path);
            }
        }
    }
}

/// Edits for untracked files leave the last edit of any other path as it is.
proof fn lemma_untracked_edits_concern_others(
    repo: &Repository,
    limit: u64,
    edits: Seq<TreeEditView>,
    untracked: Seq<Seq<u8>>,
    path: Seq<u8>,
)
    requires
        with_untracked(repo, limit, edits, untracked) is Ok,
        !untracked.contains(path),
    ensures
        last_edit(with_untracked(repo, limit, edits, untracked)->Ok_0, path) == last_edit(
            edits,
            path,
        ),
    decreases untracked.len(),
{
    if untracked.len() > 0 {
        assert(untracked[untracked.len() - 1] != path);
        if untracked.drop_last().contains(path) {
            let i = choose|i: int|
                0 <= i < untracked.drop_last().len() && untracked.drop_last()[i] == path;
            assert(untracked[i] == path);
        }
        lemma_untracked_edits_concern_others(repo, limit, edits, untracked.drop_last(), path);
        let before = with_untracked(repo, limit, edits, untracked.drop_last())->Ok_0;
        let after = with_untracked(repo, limit, edits, untracked)->Ok_0;
        if after != before {
            assert(after.drop_last() =~= before);
        }
    }
}

/// The worktree prevails over the index: of all edits of a path, the last is the one that takes
/// its state in the worktree, whatever the index reports of the path before or after that. A file
/// that is changed in the worktree is thus brought in with its content there, whatever its size.
pub proof fn law_worktree_prevails_over_index(repo: &Repository, limit: u64, j: int)
    requires
        worktree_edits(repo, limit) is Ok,
        decides(repo, repo.spec_status()->Ok_0, j),
        forall|k: int|
            0 <= k < repo.spec_status()->Ok_0.len() && item_path(
                #[trigger] repo.spec_status()->Ok_0[k],
            ) == item_path(repo.spec_status()->Ok_0[j]) ==> !is_untracked(
                repo.spec_status()->Ok_0[k],
            ),
    ensures
        last_edit(worktree_edits(repo, limit)->Ok_0, item_path(repo.spec_status()->Ok_0[j]))
            == taken_edit(repo, repo.spec_status()->Ok_0[j]),
{
    let items = repo.spec_status()->Ok_0;
    let path = item_path(items[j]);
    let progress = progress_through(repo, items)->Ok_0;
    lemma_taken_state_stays(repo, items, j);
    lemma_not_put_off(repo, items, path);
    lemma_untracked_edits_concern_others(
        repo,
        limit,
        progress.edits,
        progress.untracked,
        path,
    );
}

/// The limit concerns untracked files only: for every other path, such as one that is reported as
/// changed in the worktree, the edit that counts is the same whatever the limit.
pub proof fn law_limit_concerns_untracked_files_only(
    repo: &Repository,
    limit: u64,
    other_limit: u64,
    path: Seq<u8>,
)
    requires
        worktree_edits(repo, limit) is Ok,
        worktree_edits(repo, other_limit) is Ok,
        forall|k: int|
            0 <= k < repo.spec_status()->Ok_0.len() && item_path(
                #[trigger] repo.spec_status()->Ok_0[k],
            ) == path ==> !is_untracked(repo.spec_status()->Ok_0[k]),
    ensures
        last_edit(worktree_edits(repo, limit)->Ok_0, path) == last_edit(
            worktree_edits(repo, other_limit)->Ok_0,
            path,
        ),
{
    let items = repo.spec_status()->Ok_0;
    let progress = progress_through(repo, items)->Ok_0;
    lemma_not_put_off(repo, items, path);
    lemma_untracked_edits_concern_others(repo, limit, progress.edits, progress.untracked, path);
    lemma_untracked_edits_concern_others(
        repo,
        other_limit,
        progress.edits,
        progress.untracked,
        path,
    );
}

/// Only paths that differ are edited.
pub proof fn law_only_reported_paths_are_edited(repo: &Repository, limit: u64, k: int)
    requires
        worktree_edits(repo, limit) is Ok,
        0 <= k < worktree_edits(repo, limit)->Ok_0.len(),
    ensures
        exists|i: int|
            0 <= i < repo.spec_status()->Ok_0.len() && item_path(
                #[trigger] repo.spec_status()->Ok_0[i],
            ) == worktree_edits(repo, limit)->Ok_0[k].path(),
{
    let items = repo.spec_status()->Ok_0;
    let path = worktree_edits(repo, limit)->Ok_0[k].path();
    if forall|i: int| 0 <= i < items.len() ==> item_path(#[trigger] items[i]) != path {
        lemma_unreported_path(repo, items, path);
        let progress = progress_through(repo, items)->Ok_0;
        lemma_untracked_edits(repo, limit, progress.edits, progress.untracked, path);
    }
}

/// Whether no edit concerns a path.
pub open spec fn untouched(edits: Seq<TreeEditView>, path: Seq<u8>) -> bool {
    forall|k: int| 0 <= k < edits.len() ==> (#[trigger] edits[k]).path() != path
}

/// A path that no difference concerns is neither edited nor put off.
proof fn lemma_unreported_path(
    repo: &Repository,
    items: Seq<StatusItem>,
    path: Seq<u8>,
)
    requires
        progress_through(repo, items) is Ok,
        forall|i: int| 0 <= i < items.len() ==> item_path(#[trigger] items[i]) != path,
    ensures
        untouched(progress_through(repo, items)->Ok_0.edits, path),
        !progress_through(repo, items)->Ok_0.untracked.contains(path),
    decreases items.len(),
{
    if items.len() > 0 {
        assert forall|i: int| 0 <= i < items.drop_last().len() implies item_path(
            #[trigger] items.drop_last()[i],
        ) != path by {
            assert(items[i] == items.drop_last()[i]);
        }
        lemma_unreported_path(repo, items.drop_last(), path);
        assert(item_path(items[items.len() - 1]) != path);
    }
}

/// Edits for untracked files concern their paths.
proof fn lemma_untracked_edits(
    repo: &Repository,
    limit: u64,
    edits: Seq<TreeEditView>,
    untracked: Seq<Seq<u8>>,
    path: Seq<u8>,
)
    requires
        with_untracked(repo, limit, edits, untracked) is Ok,
        untouched(edits, path),
        untracked.contains(path) ==> untracked_edit(repo, limit, path) == Ok::<
            Option<TreeEditView>,
            StopView,
        >(None),
    ensures
        untouched(with_untracked(repo, limit, edits, untracked)->Ok_0, path),
    decreases untracked.len(),
{
    if untracked.len() > 0 {
        assert(untracked.last() == untracked[untracked.len() - 1]);
        if untracked.drop_last().contains(path) {
            let i = choose|i: int|
                0 <= i < untracked.drop_last().len() && untracked.drop_last()[i] == path;
            assert(untracked[i] == path);
        }
        lemma_untracked_edits(repo, limit, edits, untracked.drop_last(), path);
    }
}

/// An untracked file that is larger than the limit is left out.
pub proof fn law_large_untracked_files_are_left_out(repo: &Repository, limit: u64, path: Seq<u8>)
    requires
        worktree_edits(repo, limit) is Ok,
        limit != 0,
        forall|i: int|
            0 <= i < repo.spec_status()->Ok_0.len() && item_path(
                #[trigger] repo.spec_status()->Ok_0[i],
            ) == path ==> repo.spec_status()->Ok_0[i] is DirectoryContents,
        repo.spec_worktree_file(path) matches Ok(Some(file)) && file.len > limit,
    ensures
        untouched(worktree_edits(repo, limit)->Ok_0, path),
{
    let items = repo.spec_status()->Ok_0;
    lemma_directory_path(repo, items, path);
    let progress = progress_through(repo, items)->Ok_0;
    lemma_untracked_edits(repo, limit, progress.edits, progress.untracked, path);
}

/// A path that is only seen in its directory is not edited before untracked files are.
proof fn lemma_directory_path(
    repo: &Repository,
    items: Seq<StatusItem>,
    path: Seq<u8>,
)
    requires
        progress_through(repo, items) is Ok,
        forall|i: int|
            0 <= i < items.len() && item_path(#[trigger] items[i]) == path
                ==> items[i] is DirectoryContents,
    ensures
        untouched(progress_through(repo, items)->Ok_0.edits, path),
    decreases items.len(),
{
    if items.len() > 0 {
        assert forall|i: int|
            0 <= i < items.drop_last().len() && item_path(
                #[trigger] items.drop_last()[i],
            ) == path implies items.drop_last()[i] is DirectoryContents by {
            assert(items[i] == items.drop_last()[i]);
        }
        lemma_directory_path(repo, items.drop_last(), path);
        let last = items[items.len() - 1];
        assert(item_path(last) == path ==> last is DirectoryContents);
    }
}

/// Without a limit, every untracked file that can be stored is brought into the tree.
pub proof fn law_no_limit_keeps_every_untracked_file(repo: &Repository, i: int)
    requires
        worktree_edits(repo, 0) is Ok,
        0 <= i < repo.spec_status()->Ok_0.len(),
        repo.spec_status()->Ok_0[i] matches StatusItem::DirectoryContents { path: _, seen }
            && seen == DirectoryStatus::Untracked,
        repo.spec_worktree_file(item_path(repo.spec_status()->Ok_0[i])) matches Ok(Some(_)),
    ensures
        ({
            let path = item_path(repo.spec_status()->Ok_0[i]);
            let file = repo.spec_worktree_file(path)->Ok_0->Some_0;
            worktree_edits(repo, 0)->Ok_0.contains(
                TreeEditView::Upsert { path, kind: file.kind, id: file.id },
            )
        }),
{
    let items = repo.spec_status()->Ok_0;
    let path = item_path(items[i]);
    lemma_untracked_is_put_off(repo, items, i);
    let progress = progress_through(repo, items)->Ok_0;
    let k = choose|k: int| 0 <= k < progress.untracked.len() && progress.untracked[k] == path;
    lemma_untracked_is_edited(repo, 0, progress.edits, progress.untracked, k);
}

proof fn lemma_untracked_is_put_off(
    repo: &Repository,
    items: Seq<StatusItem>,
    i: int,
)
    requires
        progress_through(repo, items) is Ok,
        0 <= i < items.len(),
        items[i] matches StatusItem::DirectoryContents { path: _, seen }
            && seen == DirectoryStatus::Untracked,
    ensures
        progress_through(repo, items)->Ok_0.untracked.contains(item_path(items[i])),
    decreases items.len(),
{
    let after = progress_through(repo, items)->Ok_0.untracked;
    if i == items.len() - 1 {
        assert(after[after.len() - 1] == item_path(items[i]));
    } else {
        lemma_untracked_is_put_off(repo, items.drop_last(), i);
        let before = progress_through(repo, items.drop_last())->Ok_0.untracked;
        let k = choose|k: int| 0 <= k < before.len() && before[k] == item_path(items[i]);
        assert(after[k] == before[k]);
    }
}

proof fn lemma_untracked_is_edited(
    repo: &Repository,
    limit: u64,
    edits: Seq<TreeEditView>,
    untracked: Seq<Seq<u8>>,
    k: int,
)
    requires
        with_untracked(repo, limit, edits, untracked) is Ok,
        0 <= k < untracked.len(),
        untracked_edit(repo, limit, untracked[k]) matches Ok(Some(_)),
    ensures
        with_untracked(repo, limit, edits, untracked)->Ok_0.contains(
            untracked_edit(repo, limit, untracked[k])->Ok_0->Some_0,
        ),
    decreases untracked.len(),
{
    let after = with_untracked(repo, limit, edits, untracked)->Ok_0;
    let edit = untracked_edit(repo, limit, untracked[k])->Ok_0->Some_0;
    if k == untracked.len() - 1 {
        assert(after[after.len() - 1] == edit);
    } else {
        lemma_untracked_is_edited(repo, limit, edits, untracked.drop_last(), k);
        let before = with_untracked(repo, limit, edits, untracked.drop_last())->Ok_0;
        let m = choose|m: int| 0 <= m < before.len() && before[m] == edit;
        assert(after[m] == before[m]);
    }
}

} // verus!

//! How the edits of a tree follow from what is reported, difference by difference.
use crate::object_id::ObjectId;
use crate::repository::Repository;
use crate::worktree::{
    entry_kind_of_mode, progress_through, with_untracked, worktree_edits,
    EntryKind, EntryStatus, StatusItem, TreeEditView,
};
use crate::worktree_laws::{
    is_index_change, is_untracked, item_path, last_edit, taken_edit, untouched,
};
use vstd::prelude::*;

verus! {

/// The edit of a path that shows an object of some kind, or nothing.
pub open spec fn showing(
    path: Seq<u8>,
    object: Option<(EntryKind, ObjectId)>,
) -> TreeEditView {
    match object {
        Some((kind, id)) => TreeEditView::Upsert { path, kind, id },
        None => TreeEditView::Remove { path },
    }
}

/// Whether the file of a path has to be read for a difference.
pub open spec fn reads_file(item: StatusItem) -> bool {
    ||| is_untracked(item)
    ||| (item matches StatusItem::WorktreeModification { path: _, status } && (status is TypeChange
        || status is Modification || status is Conflict || status is IntentToAdd))
}

/// What a difference asks for by itself, `None` if it asks for no edit.
pub open spec fn asks_for(repo: &Repository, limit: u64, item: StatusItem) -> Option<TreeEditView> {
    let path = item_path(item);
    if reads_file(item) {
        match repo.spec_worktree_file(path) {
            Ok(Some(file)) => if is_untracked(item) && 0 < limit < file.len {
                None
            } else {
                Some(showing(path, Some((file.kind, file.id))))
            },
            _ => Some(showing(path, None)),
        }
    } else {
        match item {
            StatusItem::IndexDeletion { path: _ } => Some(showing(path, None)),
            StatusItem::IndexAddition { path: _, mode, id } => match entry_kind_of_mode(mode) {
                Some(kind) => Some(showing(path, Some((kind, id)))),
                None => None,
            },
            StatusItem::IndexModification { path: _, mode, id } => match entry_kind_of_mode(mode) {
                Some(kind) => Some(showing(path, Some((kind, id)))),
                None => None,
            },
            StatusItem::WorktreeModification { path: _, status } => match status {
                EntryStatus::Removed => Some(showing(path, None)),
                EntryStatus::SubmoduleModification { checked_out_head: Some(id) } => Some(
                    showing(path, Some((EntryKind::Commit, id))),
                ),
                _ => None,
            },
            StatusItem::DirectoryContents { path: _, seen: _ } => None,
        }
    }
}

/// Whether the worktree's state of a path is taken by one of the first `n` differences.
pub open spec fn is_taken_by(
    repo: &Repository,
    items: Seq<StatusItem>,
    n: int,
    path: Seq<u8>,
) -> bool {
    exists|j: int|
        0 <= j < n && item_path(#[trigger] items[j]) == path && taken_edit(repo, items[j]) is Some
}

/// The edit that the `i`th difference leads to: what it asks for, unless it is one of the index
/// for a path whose state in the worktree was taken before.
pub open spec fn leads_to(
    repo: &Repository,
    limit: u64,
    items: Seq<StatusItem>,
    i: int,
) -> Option<TreeEditView> {
    if is_index_change(items[i]) && is_taken_by(repo, items, i, item_path(items[i])) {
        None
    } else {
        asks_for(repo, limit, items[i])
    }
}

/// Whether `places` lists, in order and completely, which of the first `n` differences of one sort
/// lead to the edits.
pub open spec fn places_of_edits(
    repo: &Repository,
    limit: u64,
    items: Seq<StatusItem>,
    n: int,
    untracked: bool,
    edits: Seq<TreeEditView>,
    places: Seq<int>,
) -> bool {
    &&& places.len() == edits.len()
    &&& forall|k: int|
        0 <= k < places.len() ==> {
            &&& 0 <= #[trigger] places[k] < n
            &&& is_untracked(items[places[k]]) == untracked
            &&& leads_to(repo, limit, items, places[k]) == Some(edits[k])
        }
    &&& forall|k: int, l: int|
        0 <= k < l < places.len() ==> #[trigger] places[k] < #[trigger] places[l]
    &&& forall|i: int|
        0 <= i < n && is_untracked(#[trigger] items[i]) == untracked && leads_to(
            repo,
            limit,
            items,
            i,
        ) is Some ==> places.contains(i)
}

/// Whether the edits are those of tracked paths, at `places` of the report, and then those of
/// untracked files, at the places that `later` lists.
pub open spec fn follow_report(
    repo: &Repository,
    limit: u64,
    items: Seq<StatusItem>,
    edits: Seq<TreeEditView>,
    places: Seq<int>,
    later: Seq<int>,
) -> bool {
    let n = items.len() as int;
    let first = places.len() as int;
    &&& places.len() + later.len() == edits.len()
    &&& places_of_edits(repo, limit, items, n, false, edits.take(first), places)
    &&& places_of_edits(repo, limit, items, n, true, edits.skip(first), later)
}

/// The edits follow the report: those of tracked paths come first and those of untracked files
/// last, both in the order in which the differences are reported, one for each difference that
/// leads to one.
#[verifier::rlimit(40)]
pub proof fn law_edits_follow_the_report(repo: &Repository, limit: u64)
    requires
        worktree_edits(repo, limit) is Ok,
    ensures
        exists|places: Seq<int>, later: Seq<int>| #[trigger]
            follow_report(
                repo,
                limit,
                repo.spec_status()->Ok_0,
                worktree_edits(repo, limit)->Ok_0,
                places,
                later,
            ),
{
    let items = repo.spec_status()->Ok_0;
    let n = items.len() as int;
    let edits = worktree_edits(repo, limit)->Ok_0;
    let progress = progress_through(repo, items)->Ok_0;
    assert(items.take(n) =~= items);
    let (places, listed) = lemma_progress_follows(repo, limit, items, items.len());
    assert(progress.untracked =~= Seq::new(listed.len(), |k: int| item_path(items[listed[k]])));
    let later = lemma_untracked_follow(repo, limit, items, progress.edits, listed);
    let first = places.len() as int;
    assert(edits.take(first) == progress.edits);
    let last = edits.skip(first);
    assert forall|k: int| 0 <= k < later.len() implies {
        &&& 0 <= #[trigger] later[k] < n
        &&& is_untracked(items[later[k]]) == true
        &&& leads_to(repo, limit, items, later[k]) == Some(last[k])
    } by {
        let m = choose|m: int| 0 <= m < listed.len() && listed[m] == later[k];
        assert(0 <= listed[m] < n);
        assert(last[k] == edits[first + k]);
    }
    assert forall|i: int|
        0 <= i < n && is_untracked(#[trigger] items[i]) == true && leads_to(
            repo,
            limit,
            items,
            i,
        ) is Some implies later.contains(i) by {
        let m = choose|m: int| 0 <= m < listed.len() && listed[m] == i;
        assert(later.contains(listed[m]));
    }
    assert(places_of_edits(repo, limit, items, n, true, last, later));
    assert(follow_report(repo, limit, items, edits, places, later));
}

/// What the first `n` differences lead to, and which of them list untracked paths.
#[verifier::rlimit(40)]
proof fn lemma_progress_follows(
    repo: &Repository,
    limit: u64,
    items: Seq<StatusItem>,
    n: nat,
) -> (r: (Seq<int>, Seq<int>))
    requires
        n <= items.len(),
        progress_through(repo, items.take(n as int)) is Ok,
    ensures
        ({
            let progress = progress_through(repo, items.take(n as int))->Ok_0;
            &&& places_of_edits(repo, limit, items, n as int, false, progress.edits, r.0)
            &&& forall|path: Seq<u8>|
                progress.taken.contains(path) <==> #[trigger] is_taken_by(
                    repo,
                    items,
                    n as int,
                    path,
                )
            &&& r.1.len() == progress.untracked.len()
            &&& forall|k: int|
                0 <= k < r.1.len() ==> {
                    &&& 0 <= #[trigger] r.1[k] < n
                    &&& is_untracked(items[r.1[k]])
                    &&& item_path(items[r.1[k]]) == progress.untracked[k]
                }
            &&& forall|k: int, l: int|
                0 <= k < l < r.1.len() ==> #[trigger] r.1[k] < #[trigger] r.1[l]
            &&& forall|i: int| 0 <= i < n && is_untracked(#[trigger] items[i]) ==> r.1.contains(i)
        }),
    decreases n,
{
    if n == 0 {
        (Seq::empty(), Seq::empty())
    } else {
        let i = n - 1;
        let item = items[i];
        assert(items.take(n as int).drop_last() =~= items.take(i));
        assert(items.take(n as int).last() == item);
        let (places, listed) = lemma_progress_follows(repo, limit, items, i as nat);
        let before = progress_through(repo, items.take(i))->Ok_0;
        let after = progress_through(repo, items.take(n as int))->Ok_0;
        assert(before.taken.contains(item_path(item)) <==> is_taken_by(
            repo,
            items,
            i,
            item_path(item),
        ));
        lemma_taken_after(repo, items, n);
        if is_untracked(item) {
            let more = listed.push(i);
            assert(more[more.len() - 1] == i);
            assert forall|a: int| 0 <= a < n && is_untracked(#[trigger] items[a]) implies
                more.contains(a) by {
                if a < i {
                    let k = choose|k: int| 0 <= k < listed.len() && listed[k] == a;
                    assert(more[k] == a);
                }
            }
            (places, more)
        } else if leads_to(repo, limit, items, i) is Some {
            let more = places.push(i);
            assert(after.edits == before.edits.push(leads_to(repo, limit, items, i)->Some_0));
            assert(more[more.len() - 1] == i);
            assert forall|a: int|
                0 <= a < n && is_untracked(#[trigger] items[a]) == false && leads_to(
                    repo,
                    limit,
                    items,
                    a,
                ) is Some implies more.contains(a) by {
                if a < i {
                    let k = choose|k: int| 0 <= k < places.len() && places[k] == a;
                    assert(more[k] == a);
                }
            }
            (more, listed)
        } else {
            assert(after.edits == before.edits);
            (places, listed)
        }
    }
}

/// The paths that are taken after one more difference.
proof fn lemma_taken_after(repo: &Repository, items: Seq<StatusItem>, n: nat)
    requires
        0 < n <= items.len(),
        progress_through(repo, items.take(n as int)) is Ok,
        forall|path: Seq<u8>|
            progress_through(repo, items.take(n - 1))->Ok_0.taken.contains(path)
                <==> #[trigger] is_taken_by(repo, items, n - 1, path),
    ensures
        forall|path: Seq<u8>|
            progress_through(repo, items.take(n as int))->Ok_0.taken.contains(path)
                <==> #[trigger] is_taken_by(repo, items, n as int, path),
{
    let i = n - 1;
    let item = items[i];
    assert(items.take(n as int).drop_last() =~= items.take(i));
    assert(items.take(n as int).last() == item);
    let before = progress_through(repo, items.take(i))->Ok_0.taken;
    let after = progress_through(repo, items.take(n as int))->Ok_0.taken;
    assert forall|path: Seq<u8>| after.contains(path) <==> #[trigger] is_taken_by(
        repo,
        items,
        n as int,
        path,
    ) by {
        assert(before.contains(path) <==> is_taken_by(repo, items, i, path));
        let own = item_path(item) == path && taken_edit(repo, item) is Some;
        if taken_edit(repo, item) is Some {
            assert(after == before.push(item_path(item)));
            assert(after[after.len() - 1] == item_path(item));
            if before.contains(path) {
                let k = choose|k: int| 0 <= k < before.len() && before[k] == path;
                assert(after[k] == path);
            }
        } else {
            assert(after == before);
        }
        assert(after.contains(path) <==> before.contains(path) || own);
        if is_taken_by(repo, items, n as int, path) {
            let j = choose|j: int|
                0 <= j < n && item_path(#[trigger] items[j]) == path && taken_edit(repo, items[j])
                    is Some;
            if j < i {
                assert(is_taken_by(repo, items, i, path));
            }
        }
        if is_taken_by(repo, items, i, path) {
            let j = choose|j: int|
                0 <= j < i && item_path(#[trigger] items[j]) == path && taken_edit(repo, items[j])
                    is Some;
            assert(0 <= j < n && item_path(items[j]) == path);
        }
    }
}

/// What the listed untracked paths lead to.
#[verifier::rlimit(40)]
proof fn lemma_untracked_follow(
    repo: &Repository,
    limit: u64,
    items: Seq<StatusItem>,
    edits: Seq<TreeEditView>,
    listed: Seq<int>,
) -> (later: Seq<int>)
    requires
        forall|k: int|
            0 <= k < listed.len() ==> {
                &&& 0 <= #[trigger] listed[k] < items.len()
                &&& is_untracked(items[listed[k]])
            },
        forall|k: int, l: int|
            0 <= k < l < listed.len() ==> #[trigger] listed[k] < #[trigger] listed[l],
        with_untracked(
            repo,
            limit,
            edits,
            Seq::new(listed.len(), |k: int| item_path(items[listed[k]])),
        ) is Ok,
    ensures
        ({
            let all = with_untracked(
                repo,
                limit,
                edits,
                Seq::new(listed.len(), |k: int| item_path(items[listed[k]])),
            )->Ok_0;
            &&& all.len() == edits.len() + later.len()
            &&& all.take(edits.len() as int) == edits
            &&& forall|k: int|
                0 <= k < later.len() ==> {
                    &&& listed.contains(#[trigger] later[k])
                    &&& leads_to(repo, limit, items, later[k]) == Some(all[edits.len() + k])
                }
            &&& forall|k: int, l: int|
                0 <= k < l < later.len() ==> #[trigger] later[k] < #[trigger] later[l]
            &&& forall|k: int|
                0 <= k < listed.len() && leads_to(
                    repo,
                    limit,
                    items,
                    #[trigger] listed[k],
                ) is Some ==> later.contains(listed[k])
        }),
    decreases listed.len(),
{
    let paths = Seq::new(listed.len(), |k: int| item_path(items[listed[k]]));
    if listed.len() == 0 {
        let all = with_untracked(repo, limit, edits, paths)->Ok_0;
        assert(all.take(edits.len() as int) =~= edits);
        Seq::empty()
    } else {
        let i = listed.last();
        let before = listed.drop_last();
        let paths_before = Seq::new(before.len(), |k: int| item_path(items[before[k]]));
        assert(paths.drop_last() =~= paths_before);
        assert(listed[listed.len() - 1] == i);
        assert forall|k: int| 0 <= k < before.len() implies {
            &&& 0 <= #[trigger] before[k] < items.len()
            &&& is_untracked(items[before[k]])
        } by {
            assert(before[k] == listed[k]);
        }
        assert forall|k: int, l: int| 0 <= k < l < before.len() implies #[trigger] before[k]
            < #[trigger] before[l] by {
            assert(listed[k] < listed[l]);
        }
        let later = lemma_untracked_follow(repo, limit, items, edits, before);
        let so_far = with_untracked(repo, limit, edits, paths_before)->Ok_0;
        let all = with_untracked(repo, limit, edits, paths)->Ok_0;
        assert(!is_index_change(items[i]));
        let more = if leads_to(repo, limit, items, i) is Some {
            later.push(i)
        } else {
            later
        };
        assert(all == (match leads_to(repo, limit, items, i) {
            Some(edit) => so_far.push(edit),
            None => so_far,
        }));
        assert(all.take(edits.len() as int) =~= so_far.take(edits.len() as int));
        assert forall|k: int| 0 <= k < more.len() implies {
            &&& listed.contains(#[trigger] more[k])
            &&& leads_to(repo, limit, items, more[k]) == Some(all[edits.len() + k])
        } by {
            if k < later.len() {
                assert(before.contains(later[k]));
                let m = choose|m: int| 0 <= m < before.len() && before[m] == later[k];
                assert(listed[m] == later[k]);
            }
        }
        assert forall|k: int, l: int| 0 <= k < l < more.len() implies #[trigger] more[k]
            < #[trigger] more[l] by {
            if l == later.len() {
                assert(before.contains(later[k]));
                let m = choose|m: int| 0 <= m < before.len() && before[m] == later[k];
                assert(listed[m] == later[k]);
            }
        }
        assert forall|k: int|
            0 <= k < listed.len() && leads_to(
                repo,
                limit,
                items,
                #[trigger] listed[k],
            ) is Some implies more.contains(listed[k]) by {
            if k < before.len() {
                assert(before[k] == listed[k]);
                let m = choose|m: int| 0 <= m < later.len() && later[m] == before[k];
                assert(more[m] == listed[k]);
            } else {
                assert(more[more.len() - 1] == i);
            }
        }
        more
    }
}

/// Whether the `i`th difference is the only one that concerns its path.
pub open spec fn is_only_report(items: Seq<StatusItem>, i: int) -> bool {
    &&& 0 <= i < items.len()
    &&& forall|j: int|
        0 <= j < items.len() && j != i ==> item_path(#[trigger] items[j]) != item_path(items[i])
}

/// A path of which one difference is reported ends as that difference asks.
proof fn lemma_only_report_decides(repo: &Repository, limit: u64, i: int)
    requires
        worktree_edits(repo, limit) is Ok,
        is_only_report(repo.spec_status()->Ok_0, i),
    ensures
        last_edit(worktree_edits(repo, limit)->Ok_0, item_path(repo.spec_status()->Ok_0[i]))
            == asks_for(repo, limit, repo.spec_status()->Ok_0[i]),
{
    law_edits_follow_the_report(repo, limit);
    let items = repo.spec_status()->Ok_0;
    let edits = worktree_edits(repo, limit)->Ok_0;
    let (places, later) = choose|places: Seq<int>, later: Seq<int>| #[trigger]
        follow_report(repo, limit, items, edits, places, later);
    lemma_only_report_is_followed(repo, limit, items, edits, places, later, i);
}

#[verifier::rlimit(40)]
proof fn lemma_only_report_is_followed(
    repo: &Repository,
    limit: u64,
    items: Seq<StatusItem>,
    edits: Seq<TreeEditView>,
    places: Seq<int>,
    later: Seq<int>,
    i: int,
)
    requires
        follow_report(repo, limit, items, edits, places, later),
        is_only_report(items, i),
    ensures
        last_edit(edits, item_path(items[i])) == asks_for(repo, limit, items[i]),
{
    let path = item_path(items[i]);
    let first = places.len() as int;
    let all = places + later;
    assert forall|k: int| 0 <= k < edits.len() implies {
        &&& 0 <= #[trigger] all[k] < items.len()
        &&& leads_to(repo, limit, items, all[k]) == Some(edits[k])
        &&& edits[k].path() == item_path(items[all[k]])
    } by {
        if k < first {
            assert(all[k] == places[k]);
            assert(edits.take(first)[k] == edits[k]);
        } else {
            assert(all[k] == later[k - first]);
            assert(edits.skip(first)[k - first] == edits[k]);
        }
    }
    match asks_for(repo, limit, items[i]) {
        Some(edit) => {
            assert(!is_taken_by(repo, items, i, path));
            assert(leads_to(repo, limit, items, i) == Some(edit));
            let k = lemma_place_of(repo, limit, items, edits, places, later, i);
            assert forall|l: int| k < l < edits.len() implies (#[trigger] edits[l]).path()
                != path by {
                assert(all[l] != i);
            }
            lemma_last_edit(edits, path, k);
        },
        None => {
            assert forall|k: int| 0 <= k < edits.len() implies (#[trigger] edits[k]).path()
                != path by {
                assert(all[k] != i);
            }
            lemma_no_edit(edits, path);
        },
    }
}

/// Where the edit stands that a difference leads to. No later one is of that difference.
proof fn lemma_place_of(
    repo: &Repository,
    limit: u64,
    items: Seq<StatusItem>,
    edits: Seq<TreeEditView>,
    places: Seq<int>,
    later: Seq<int>,
    i: int,
) -> (k: int)
    requires
        follow_report(repo, limit, items, edits, places, later),
        0 <= i < items.len(),
        leads_to(repo, limit, items, i) is Some,
    ensures
        0 <= k < edits.len(),
        (places + later)[k] == i,
        forall|l: int| k < l < edits.len() ==> #[trigger] (places + later)[l] != i,
{
    let first = places.len() as int;
    let all = places + later;
    let k = if is_untracked(items[i]) {
        assert(later.contains(i));
        first + choose|k: int| 0 <= k < later.len() && later[k] == i
    } else {
        assert(places.contains(i));
        choose|k: int| 0 <= k < places.len() && places[k] == i
    };
    assert(all[k] == i);
    assert forall|l: int| k < l < edits.len() implies #[trigger] all[l] != i by {
        if l < first {
            assert(places[k] < places[l]);
        } else if k >= first {
            assert(later[k - first] < later[l - first]);
        } else {
            assert(is_untracked(items[later[l - first]]) == true);
            assert(is_untracked(items[places[k]]) == false);
        }
    }
    k
}

proof fn lemma_last_edit(edits: Seq<TreeEditView>, path: Seq<u8>, k: int)
    requires
        0 <= k < edits.len(),
        edits[k].path() == path,
        forall|l: int| k < l < edits.len() ==> (#[trigger] edits[l]).path() != path,
    ensures
        last_edit(edits, path) == Some(edits[k]),
    decreases edits.len(),
{
    if k < edits.len() - 1 {
        assert(edits[edits.len() - 1].path() != path);
        lemma_last_edit(edits.drop_last(), path, k);
    }
}

proof fn lemma_no_edit(edits: Seq<TreeEditView>, path: Seq<u8>)
    requires
        untouched(edits, path),
    ensures
        last_edit(edits, path) is None,
    decreases edits.len(),
{
    if edits.len() > 0 {
        assert(edits[edits.len() - 1].path() != path);
        lemma_no_edit(edits.drop_last(), path);
    }
}

/// A change of the index that is all that is reported of a path is recorded as it stands: a
/// deletion removes the path, and what was added or modified is set to the reported object, with
/// the kind that its mode stands for. A mode that stands for none leaves the path alone.
pub proof fn law_index_change_is_recorded(repo: &Repository, limit: u64, i: int)
    requires
        worktree_edits(repo, limit) is Ok,
        is_only_report(repo.spec_status()->Ok_0, i),
        is_index_change(repo.spec_status()->Ok_0[i]),
    ensures
        ({
            let item = repo.spec_status()->Ok_0[i];
            let counts = last_edit(worktree_edits(repo, limit)->Ok_0, item_path(item));
            &&& item matches StatusItem::IndexDeletion { path } ==> counts == Some(
                TreeEditView::Remove { path: path@ },
            )
            &&& item matches StatusItem::IndexAddition { path, mode, id } ==> match counts {
                Some(edit) => {
                    &&& edit matches TreeEditView::Upsert { path: at, kind, id: object }
                    &&& at == path@
                    &&& entry_kind_of_mode(mode) == Some(kind)
                    &&& object == id
                },
                None => entry_kind_of_mode(mode) is None,
            }
            &&& item matches StatusItem::IndexModification { path, mode, id } ==> match counts {
                Some(edit) => {
                    &&& edit matches TreeEditView::Upsert { path: at, kind, id: object }
                    &&& at == path@
                    &&& entry_kind_of_mode(mode) == Some(kind)
                    &&& object == id
                },
                None => entry_kind_of_mode(mode) is None,
            }
        }),
{
    lemma_only_report_decides(repo, limit, i);
}

/// A change of the worktree that is all that is reported of a path is taken: a path that is gone
/// is removed, a submodule is set to the commit that is checked out, and any other change sets the
/// path to its file, whatever its size, or removes it where there is nothing to store. A submodule
/// without such a commit, and a path that did not change, are left alone.
pub proof fn law_worktree_change_is_recorded(repo: &Repository, limit: u64, i: int)
    requires
        worktree_edits(repo, limit) is Ok,
        is_only_report(repo.spec_status()->Ok_0, i),
        repo.spec_status()->Ok_0[i] is WorktreeModification,
    ensures
        ({
            let path = item_path(repo.spec_status()->Ok_0[i]);
            let counts = last_edit(worktree_edits(repo, limit)->Ok_0, path);
            match repo.spec_status()->Ok_0[i]->status {
                EntryStatus::Removed => counts == Some(TreeEditView::Remove { path }),
                EntryStatus::SubmoduleModification { checked_out_head: Some(id) } => counts == Some(
                    TreeEditView::Upsert { path, kind: EntryKind::Commit, id },
                ),
                EntryStatus::SubmoduleModification { checked_out_head: None } => counts is None,
                EntryStatus::NeedsUpdate => counts is None,
                EntryStatus::TypeChange
                | EntryStatus::Modification
                | EntryStatus::Conflict
                | EntryStatus::IntentToAdd => {
                    &&& repo.spec_worktree_file(path) matches Ok(found)
                    &&& match found {
                        Some(file) => counts == Some(
                            TreeEditView::Upsert { path, kind: file.kind, id: file.id },
                        ),
                        None => counts == Some(TreeEditView::Remove { path }),
                    }
                },
            }
        }),
{
    lemma_only_report_decides(repo, limit, i);
    let items = repo.spec_status()->Ok_0;
    if reads_file(items[i]) {
        lemma_files_were_read(repo, items, i);
    }
}

/// A path that is only seen in its directory is left alone unless it is untracked. An untracked
/// file is brought in unless there is a limit and it is larger, and a path where there is nothing
/// to store is removed.
pub proof fn law_untracked_file_is_recorded(repo: &Repository, limit: u64, i: int)
    requires
        worktree_edits(repo, limit) is Ok,
        is_only_report(repo.spec_status()->Ok_0, i),
        repo.spec_status()->Ok_0[i] is DirectoryContents,
    ensures
        ({
            let path = item_path(repo.spec_status()->Ok_0[i]);
            let counts = last_edit(worktree_edits(repo, limit)->Ok_0, path);
            &&& !is_untracked(repo.spec_status()->Ok_0[i]) ==> counts is None
            &&& is_untracked(repo.spec_status()->Ok_0[i]) ==> {
                &&& repo.spec_worktree_file(path) matches Ok(found)
                &&& match found {
                    Some(file) => counts == if limit == 0 || file.len <= limit {
                        Some(TreeEditView::Upsert { path, kind: file.kind, id: file.id })
                    } else {
                        None
                    },
                    None => counts == Some(TreeEditView::Remove { path }),
                }
            }
        }),
{
    lemma_only_report_decides(repo, limit, i);
    let items = repo.spec_status()->Ok_0;
    if is_untracked(items[i]) {
        let (_, listed) = {
            assert(items.take(items.len() as int) =~= items);
            lemma_progress_follows(repo, limit, items, items.len())
        };
        let progress = progress_through(repo, items)->Ok_0;
        assert(listed.contains(i));
        let k = choose|k: int| 0 <= k < listed.len() && listed[k] == i;
        assert(progress.untracked[k] == item_path(items[i]));
        lemma_untracked_was_read(repo, limit, progress.edits, progress.untracked, k);
    }
}

proof fn lemma_files_were_read(repo: &Repository, items: Seq<StatusItem>, i: int)
    requires
        progress_through(repo, items) is Ok,
        0 <= i < items.len(),
        reads_file(items[i]),
        !is_untracked(items[i]),
    ensures
        repo.spec_worktree_file(item_path(items[i])) is Ok,
    decreases items.len(),
{
    if i < items.len() - 1 {
        lemma_files_were_read(repo, items.drop_last(), i);
    }
}

proof fn lemma_untracked_was_read(
    repo: &Repository,
    limit: u64,
    edits: Seq<TreeEditView>,
    untracked: Seq<Seq<u8>>,
    k: int,
)
    requires
        with_untracked(repo, limit, edits, untracked) is Ok,
        0 <= k < untracked.len(),
    ensures
        repo.spec_worktree_file(untracked[k]) is Ok,
    decreases untracked.len(),
{
    if k < untracked.len() - 1 {
        lemma_untracked_was_read(repo, limit, edits, untracked.drop_last(), k);
    }
}

/// The edits are owed as soon as the differences are known, and the files of those that have to be
/// read. Nothing else can stop them.
pub proof fn law_edits_need_the_report_and_its_files(repo: &Repository, limit: u64)
    ensures
        worktree_edits(repo, limit) is Ok <==> {
            &&& repo.spec_status() is Ok
            &&& forall|i: int|
                0 <= i < repo.spec_status()->Ok_0.len() && reads_file(
                    #[trigger] repo.spec_status()->Ok_0[i],
                ) ==> repo.spec_worktree_file(item_path(repo.spec_status()->Ok_0[i])) is Ok
        },
        worktree_edits(repo, limit) matches Err(stop) ==> stop is Unknown,
{
    if repo.spec_status() is Ok {
        let items = repo.spec_status()->Ok_0;
        let n = items.len();
        assert(items.take(n as int) =~= items);
        lemma_progress_needs(repo, items);
        if progress_through(repo, items) is Ok {
            let progress = progress_through(repo, items)->Ok_0;
            let (_, listed) = lemma_progress_follows(repo, limit, items, n);
            lemma_untracked_need(repo, limit, progress.edits, progress.untracked);
            if worktree_edits(repo, limit) is Ok {
                assert forall|i: int|
                    0 <= i < items.len() && reads_file(
                        #[trigger] items[i],
                    ) implies repo.spec_worktree_file(item_path(items[i])) is Ok by {
                    if is_untracked(items[i]) {
                        assert(listed.contains(i));
                        let k = choose|k: int| 0 <= k < listed.len() && listed[k] == i;
                        assert(progress.untracked[k] == item_path(items[listed[k]]));
                        lemma_untracked_was_read(
                            repo,
                            limit,
                            progress.edits,
                            progress.untracked,
                            k,
                        );
                    } else {
                        lemma_files_were_read(repo, items, i);
                    }
                }
            } else {
                let k = choose|k: int|
                    0 <= k < progress.untracked.len() && repo.spec_worktree_file(
                        #[trigger] progress.untracked[k],
                    ) is Err;
                assert(0 <= listed[k] < n);
                assert(reads_file(items[listed[k]]));
                assert(item_path(items[listed[k]]) == progress.untracked[k]);
            }
        }
    }
}

proof fn lemma_progress_needs(repo: &Repository, items: Seq<StatusItem>)
    ensures
        progress_through(repo, items) matches Err(stop) ==> {
            &&& stop is Unknown
            &&& exists|i: int|
                0 <= i < items.len() && reads_file(#[trigger] items[i])
                    && repo.spec_worktree_file(item_path(items[i])) is Err
        },
    decreases items.len(),
{
    if items.len() > 0 {
        let before = items.drop_last();
        lemma_progress_needs(repo, before);
        if progress_through(repo, before) is Err {
            let i = choose|i: int|
                0 <= i < before.len() && reads_file(#[trigger] before[i])
                    && repo.spec_worktree_file(item_path(before[i])) is Err;
            assert(reads_file(items[i]));
        } else if progress_through(repo, items) is Err {
            assert(reads_file(items[items.len() - 1]));
        }
    }
}

proof fn lemma_untracked_need(
    repo: &Repository,
    limit: u64,
    edits: Seq<TreeEditView>,
    untracked: Seq<Seq<u8>>,
)
    ensures
        with_untracked(repo, limit, edits, untracked) matches Err(stop) ==> {
            &&& stop is Unknown
            &&& exists|k: int|
                0 <= k < untracked.len() && repo.spec_worktree_file(#[trigger] untracked[k]) is Err
        },
    decreases untracked.len(),
{
    if untracked.len() > 0 {
        let before = untracked.drop_last();
        lemma_untracked_need(repo, limit, edits, before);
        if with_untracked(repo, limit, edits, before) is Err {
            let k = choose|k: int|
                0 <= k < before.len() && repo.spec_worktree_file(#[trigger] before[k]) is Err;
            assert(repo.spec_worktree_file(untracked[k]) is Err);
        } else if with_untracked(repo, limit, edits, untracked) is Err {
            assert(repo.spec_worktree_file(untracked[untracked.len() - 1]) is Err);
        }
    }
}

} // verus!

//! What holds of every merge of selected changes.
use crate::merge::{
    cherry_pick, fold_ranges, merge_outcome, outcome_of_commit, range_merge, trial_merge,
    ConflictView, OutcomeView,
};
use crate::merge_options::{
    forced_resolution, ContentMerge, MergeLabels, MergeOptions, RenameTracking, TreatAsUnresolved,
    TreeMerge, TreeMergeKind,
};
use crate::object_id::{empty_tree, ObjectId};
use crate::plan::{change_ranges, commits_read, distinct, plan, range_tips, PlannedCommitChange};
use crate::repository::{CommitFact, ConflictedTrees, MergedTreeView, Repository, TreeKind};
use crate::stop::{FailureView, StopView};
use vstd::prelude::*;

verus! {

/// Selecting a commit twice is the same as selecting it once.
pub proof fn law_duplicates_do_not_change_the_merge(
    repo: &Repository,
    commit_ids: Seq<ObjectId>,
    options: MergeOptions,
)
    ensures
        merge_outcome(repo, distinct(commit_ids), options) == merge_outcome(
            repo,
            commit_ids,
            options,
        ),
{
    crate::plan_laws::law_duplicates_are_ignored(repo, commit_ids);
}

/// In a history that was written commit by commit, a merge is refused for want of commits exactly
/// if nothing was selected.
pub proof fn law_only_an_empty_selection_has_no_commits(
    repo: &Repository,
    commit_ids: Seq<ObjectId>,
    options: MergeOptions,
    rank: spec_fn(ObjectId) -> nat,
)
    requires
        crate::plan_laws::ranked(repo, distinct(commit_ids), rank),
    ensures
        merge_outcome(repo, commit_ids, options) == Err::<OutcomeView, StopView>(
            StopView::Failed(FailureView::NoCommits),
        ) <==> commit_ids.len() == 0,
{
    if commit_ids.len() == 0 {
        assert(distinct(commit_ids) == Seq::<ObjectId>::empty());
    } else if plan(repo, commit_ids) is Ok {
        let commit = commit_ids[0];
        crate::plan_laws::law_every_selected_commit_is_in_a_range(repo, commit_ids, rank, commit);
        let ranges = plan(repo, commit_ids)->Ok_0;
        if let Ok(base) = repo.spec_octopus_base(range_tips(ranges)) {
            if let Ok(ours) = repo.spec_tree(base, TreeKind::AutoResolution) {
                lemma_fold_fails_only_for_unknowns(repo, ranges, ours, options);
            }
        }
    } else {
        crate::plan_laws::law_plan_stops_only_for_unknowns(repo, commit_ids, rank);
    }
}

/// Whether the answers on tree merges call those clean in which one side changes nothing.
pub open spec fn unchanged_sides_are_clean(repo: &Repository) -> bool {
    forall|merge: TreeMerge, unresolved_if: TreatAsUnresolved|
        #![trigger repo.spec_clean_merge(merge, unresolved_if)]
        (merge.ours == merge.base || merge.theirs == merge.base) && repo.spec_clean_merge(
            merge,
            unresolved_if,
        ) is Ok ==> repo.spec_clean_merge(merge, unresolved_if)->Ok_0
}

/// Where tree merges in which one side changes nothing are answered to be clean, a tree merges
/// cleanly with the one that it comes from, on either side: that is the result, or there is no
/// answer yet.
pub proof fn law_unchanged_side_merges_cleanly(repo: &Repository, tree: ObjectId, other: ObjectId)
    requires
        unchanged_sides_are_clean(repo),
    ensures
        repo.spec_clean_merge(trial_merge(tree, tree, other), forced_resolution()) matches Ok(clean)
            ==> clean,
        repo.spec_clean_merge(trial_merge(tree, other, tree), forced_resolution()) matches Ok(clean)
            ==> clean,
{
}

/// Reading selected commits waits for no editor.
proof fn lemma_commits_read_waits_for_no_editor(repo: &Repository, selected: Seq<ObjectId>)
    ensures
        commits_read(repo, selected) matches Err(stop) ==> !(stop is Pending),
    decreases selected.len(),
{
    if selected.len() > 0 {
        lemma_commits_read_waits_for_no_editor(repo, selected.drop_last());
    }
}

/// Telling change ranges waits for no editor.
proof fn lemma_change_ranges_wait_for_no_editor(
    repo: &Repository,
    selected: Seq<ObjectId>,
    candidates: Seq<ObjectId>,
)
    ensures
        change_ranges(repo, selected, candidates) matches Err(stop) ==> !(stop is Pending),
    decreases candidates.len(),
{
    if candidates.len() > 0 {
        lemma_change_ranges_wait_for_no_editor(repo, selected, candidates.drop_last());
    }
}

/// A merge needs answers about the repository at most, never the editor of the commit graph.
pub proof fn law_merge_waits_for_no_editor(
    repo: &Repository,
    commit_ids: Seq<ObjectId>,
    options: MergeOptions,
)
    ensures
        merge_outcome(repo, commit_ids, options) matches Err(stop) ==> !(stop is Pending),
{
    let selected = distinct(commit_ids);
    lemma_commits_read_waits_for_no_editor(repo, selected);
    lemma_change_ranges_wait_for_no_editor(repo, selected, selected);
    if let Ok(ranges) = plan(repo, commit_ids) {
        if let Ok(base) = repo.spec_octopus_base(range_tips(ranges)) {
            if let Ok(ours) = repo.spec_tree(base, TreeKind::AutoResolution) {
                lemma_fold_fails_only_for_unknowns(repo, ranges, ours, options);
            }
        }
    }
}

proof fn lemma_fold_fails_only_for_unknowns(
    repo: &Repository,
    ranges: Seq<PlannedCommitChange>,
    ours: ObjectId,
    options: MergeOptions,
)
    ensures
        fold_ranges(repo, ranges, ours, options) matches Err(stop) ==> stop is Unknown,
    decreases ranges.len(),
{
    if ranges.len() > 0 {
        match repo.spec_tree(ranges[0].commit_id, TreeKind::AutoResolution) {
            Ok(theirs) => match repo.spec_merged_tree(
                range_merge(ranges[0], ours, theirs, options),
                forced_resolution(),
            ) {
                Ok(merged) => {
                    lemma_fold_fails_only_for_unknowns(
                        repo,
                        ranges.drop_first(),
                        merged.tree,
                        options,
                    );
                },
                Err(_) => {},
            },
            Err(_) => {},
        }
    }
}

/// If the selection makes a single range, nothing is merged: the commit's own tree is the result,
/// whatever the options.
pub proof fn law_single_range_is_taken_as_it_is(
    repo: &Repository,
    commit_ids: Seq<ObjectId>,
    options: MergeOptions,
)
    requires
        plan(repo, commit_ids) is Ok,
        plan(repo, commit_ids)->Ok_0.len() == 1,
    ensures
        ({
            let commit = plan(repo, commit_ids)->Ok_0[0].commit_id;
            &&& merge_outcome(repo, commit_ids, options) == outcome_of_commit(repo, commit)
            &&& merge_outcome(repo, commit_ids, options) matches Ok(outcome) ==> repo.spec_tree(
                commit,
                TreeKind::AutoResolution,
            ) == Ok::<ObjectId, StopView>(outcome.tree_id)
        }),
{
}

/// The tree after the first `n` ranges, `None` unless all of them merged cleanly.
pub open spec fn merged_cleanly(
    repo: &Repository,
    ranges: Seq<PlannedCommitChange>,
    start: ObjectId,
    options: MergeOptions,
    n: nat,
) -> Option<ObjectId>
    decreases n,
{
    if n == 0 {
        Some(start)
    } else {
        match merged_cleanly(repo, ranges, start, options, (n - 1) as nat) {
            None => None,
            Some(ours) => match repo.spec_tree(
                ranges[n - 1].commit_id,
                TreeKind::AutoResolution,
            ) {
                Err(_) => None,
                Ok(theirs) => match repo.spec_merged_tree(
                    range_merge(ranges[n - 1], ours, theirs, options),
                    forced_resolution(),
                ) {
                    Err(_) => None,
                    Ok(merged) => if merged.unresolved is None {
                        Some(merged.tree)
                    } else {
                        None
                    },
                },
            },
        }
    }
}

/// Whether an outcome is that of the conflict in which range `n` was merged into `ours`.
pub open spec fn conflicts_at(
    repo: &Repository,
    ranges: Seq<PlannedCommitChange>,
    ours: ObjectId,
    options: MergeOptions,
    n: nat,
    outcome: OutcomeView,
) -> bool {
    match repo.spec_tree(ranges[n as int].commit_id, TreeKind::AutoResolution) {
        Err(_) => false,
        Ok(theirs) => match repo.spec_merged_tree(
            range_merge(ranges[n as int], ours, theirs, options),
            forced_resolution(),
        ) {
            Err(_) => false,
            Ok(merged) => {
                &&& merged.unresolved matches Some(entries)
                &&& outcome == OutcomeView {
                    tree_id: merged.tree,
                    conflict: Some(
                        ConflictView {
                            base_tree_id: ranges[n as int].base_tree_id,
                            ours_tree_id: ours,
                            theirs_tree_id: theirs,
                            conflict_entries: entries,
                        },
                    ),
                }
            },
        },
    }
}

/// Whether an outcome is that of the conflict at range `n`, after all ranges before it merged
/// cleanly.
pub open spec fn ends_at(
    repo: &Repository,
    ranges: Seq<PlannedCommitChange>,
    start: ObjectId,
    options: MergeOptions,
    n: nat,
    outcome: OutcomeView,
) -> bool {
    match merged_cleanly(repo, ranges, start, options, n) {
        None => false,
        Some(ours) => n < ranges.len() && conflicts_at(repo, ranges, ours, options, n, outcome),
    }
}

/// The merge either takes in every range cleanly, or it ends with the conflict of the first range
/// that did not merge cleanly.
pub proof fn law_merge_ends_with_the_first_conflict(
    repo: &Repository,
    ranges: Seq<PlannedCommitChange>,
    start: ObjectId,
    options: MergeOptions,
)
    requires
        fold_ranges(repo, ranges, start, options) is Ok,
    ensures
        ({
            let outcome = fold_ranges(repo, ranges, start, options)->Ok_0;
            match outcome.conflict {
                None => merged_cleanly(repo, ranges, start, options, ranges.len()) == Some(
                    outcome.tree_id,
                ),
                Some(_) => exists|n: nat|
                    #[trigger] ends_at(repo, ranges, start, options, n, outcome),
            }
        }),
    decreases ranges.len(),
{
    if ranges.len() > 0 {
        let outcome = fold_ranges(repo, ranges, start, options)->Ok_0;
        let rest = ranges.drop_first();
        let theirs = repo.spec_tree(ranges[0].commit_id, TreeKind::AutoResolution)->Ok_0;
        let merged = repo.spec_merged_tree(
            range_merge(ranges[0], start, theirs, options),
            forced_resolution(),
        )->Ok_0;
        assert(merged_cleanly(repo, ranges, start, options, 0) == Some(start));
        match merged.unresolved {
            Some(_) => {
                assert(ends_at(repo, ranges, start, options, 0, outcome));
            },
            None => {
                law_merge_ends_with_the_first_conflict(repo, rest, merged.tree, options);
                if outcome.conflict is None {
                    lemma_merged_cleanly_shift(
                        repo,
                        ranges,
                        start,
                        options,
                        rest.len(),
                        merged.tree,
                    );
                } else {
                    let n = choose|n: nat|
                        #[trigger] ends_at(repo, rest, merged.tree, options, n, outcome);
                    lemma_merged_cleanly_shift(repo, ranges, start, options, n, merged.tree);
                    assert(rest[n as int] == ranges[n as int + 1]);
                    assert(ends_at(repo, ranges, start, options, n + 1, outcome));
                }
            },
        }
    }
}

/// After the first range, the remaining ones go on from the merged tree.
proof fn lemma_merged_cleanly_shift(
    repo: &Repository,
    ranges: Seq<PlannedCommitChange>,
    start: ObjectId,
    options: MergeOptions,
    n: nat,
    first: ObjectId,
)
    requires
        n < ranges.len(),
        merged_cleanly(repo, ranges, start, options, 1) == Some(first),
    ensures
        merged_cleanly(repo, ranges, start, options, n + 1) == merged_cleanly(
            repo,
            ranges.drop_first(),
            first,
            options,
            n,
        ),
    decreases n,
{
    if n > 0 {
        lemma_merged_cleanly_shift(repo, ranges, start, options, (n - 1) as nat, first);
        assert(ranges.drop_first()[n - 1] == ranges[n as int]);
    }
}

/// Ranges after a conflicted one have no influence: with other ranges in their place, or none, the
/// outcome is the same.
pub proof fn law_ranges_after_a_conflict_do_not_matter(
    repo: &Repository,
    ranges: Seq<PlannedCommitChange>,
    others: Seq<PlannedCommitChange>,
    start: ObjectId,
    options: MergeOptions,
    n: nat,
)
    requires
        n < others.len(),
        ranges.take(n as int + 1) == others.take(n as int + 1),
        exists|outcome: OutcomeView| #[trigger]
            ends_at(repo, ranges, start, options, n, outcome),
    ensures
        fold_ranges(repo, ranges, start, options) is Ok,
        fold_ranges(repo, ranges, start, options)->Ok_0.conflict is Some,
        fold_ranges(repo, others, start, options) == fold_ranges(repo, ranges, start, options),
    decreases n,
{
    assert(ranges[0] == ranges.take(n as int + 1)[0]);
    assert(others[0] == others.take(n as int + 1)[0]);
    if n > 0 {
        lemma_first_is_clean(repo, ranges, start, options, n);
        let first = merged_cleanly(repo, ranges, start, options, 1)->Some_0;
        lemma_merged_cleanly_shift(repo, ranges, start, options, (n - 1) as nat, first);
        assert(ranges.drop_first()[n - 1] == ranges[n as int]);
        let outcome = choose|outcome: OutcomeView| #[trigger]
            ends_at(repo, ranges, start, options, n, outcome);
        assert(ends_at(repo, ranges.drop_first(), first, options, (n - 1) as nat, outcome));
        assert(ranges.drop_first().take(n as int) =~= ranges.take(n as int + 1).drop_first());
        assert(others.drop_first().take(n as int) =~= others.take(n as int + 1).drop_first());
        assert(merged_cleanly(repo, ranges, start, options, 0) == Some(start));
        law_ranges_after_a_conflict_do_not_matter(
            repo,
            ranges.drop_first(),
            others.drop_first(),
            first,
            options,
            (n - 1) as nat,
        );
    }
}

proof fn lemma_first_is_clean(
    repo: &Repository,
    ranges: Seq<PlannedCommitChange>,
    start: ObjectId,
    options: MergeOptions,
    n: nat,
)
    requires
        n > 0,
        merged_cleanly(repo, ranges, start, options, n) is Some,
    ensures
        merged_cleanly(repo, ranges, start, options, 1) is Some,
    decreases n,
{
    if n > 1 {
        lemma_first_is_clean(repo, ranges, start, options, (n - 1) as nat);
    }
}

/// A commit is picked by applying what it changes to the tree of the new base, with the options
/// that are asked for. What it changes is measured from the base that a conflicted commit records,
/// else from its first parent, else from nothing. No more than these trees has to be known.
pub proof fn law_cherry_pick_applies_the_commit_to_the_new_base(
    repo: &Repository,
    new_base: ObjectId,
    commit: ObjectId,
    options: MergeOptions,
)
    ensures
        cherry_pick(repo, new_base, commit, options) matches Ok(merge) ==> {
            &&& merge.options == options
            &&& merge.labels == MergeLabels::Sides
            &&& repo.spec_tree(new_base, TreeKind::AutoResolution) == Ok::<_, StopView>(merge.ours)
            &&& repo.spec_tree(commit, TreeKind::Theirs) == Ok::<_, StopView>(merge.theirs)
            &&& is_measured_from(repo, commit, merge.base)
        },
        forall|base: ObjectId|
            {
                &&& repo.spec_tree(new_base, TreeKind::AutoResolution) is Ok
                &&& repo.spec_tree(commit, TreeKind::Theirs) is Ok
                &&& #[trigger] is_measured_from(repo, commit, base)
            } ==> cherry_pick(repo, new_base, commit, options) is Ok,
        cherry_pick(repo, new_base, commit, options) matches Err(stop) ==> stop is Unknown,
{
}

/// Whether the changes of a picked commit are those since `base`.
pub open spec fn is_measured_from(repo: &Repository, commit: ObjectId, base: ObjectId) -> bool {
    &&& repo.spec_commit(commit) matches Ok(fact)
    &&& fact.conflicted ==> repo.spec_tree(commit, TreeKind::Base) == Ok::<_, StopView>(base)
    &&& !fact.conflicted && fact.parents@.len() > 0 ==> repo.spec_tree(
        fact.parents@[0],
        TreeKind::AutoResolution,
    ) == Ok::<_, StopView>(base)
    &&& !fact.conflicted && fact.parents@.len() == 0 ==> base == empty_tree()
}

/// Picking the same commit elsewhere, or with other options, changes our side and the options of
/// the merge, and nothing else.
pub proof fn law_cherry_pick_takes_the_same_changes_anywhere(
    repo: &Repository,
    new_base: ObjectId,
    other_base: ObjectId,
    commit: ObjectId,
    options: MergeOptions,
    other_options: MergeOptions,
)
    requires
        cherry_pick(repo, new_base, commit, options) is Ok,
        cherry_pick(repo, other_base, commit, other_options) is Ok,
    ensures
        ({
            let merge = cherry_pick(repo, new_base, commit, options)->Ok_0;
            let other = cherry_pick(repo, other_base, commit, other_options)->Ok_0;
            &&& merge.base == other.base
            &&& merge.theirs == other.theirs
            &&& merge.labels == other.labels
            &&& new_base == other_base ==> merge.ours == other.ours
            &&& merge.options == options
            &&& other.options == other_options
        }),
{
}

/// What comes of applying the changes of a range to a tree, with everything that is not clean
/// counted as unresolved, `None` if it is not known.
pub open spec fn range_applied(
    repo: &Repository,
    range: PlannedCommitChange,
    ours: ObjectId,
    options: MergeOptions,
) -> Option<MergedTreeView> {
    match repo.spec_tree(range.commit_id, TreeKind::AutoResolution) {
        Err(_) => None,
        Ok(theirs) => match repo.spec_merged_tree(
            TreeMerge {
                base: range.base_tree_id,
                ours,
                theirs,
                labels: MergeLabels::Sides,
                options,
            },
            TreatAsUnresolved {
                content_merge: ContentMerge::ForcedResolution,
                tree_merge: TreeMergeKind::ForcedResolution,
            },
        ) {
            Err(_) => None,
            Ok(merged) => Some(merged),
        },
    }
}

/// Whether tree `k + 1` is what comes of range `k`, cleanly applied to tree `k`.
pub open spec fn follows(
    repo: &Repository,
    ranges: Seq<PlannedCommitChange>,
    options: MergeOptions,
    trees: Seq<ObjectId>,
    k: int,
) -> bool {
    range_applied(repo, ranges[k], trees[k], options) == Some(
        MergedTreeView { tree: trees[k + 1], unresolved: None },
    )
}

/// Whether `trees` are the trees that the ranges come to one after the other, up to the first one
/// that conflicts.
pub open spec fn accumulates(
    repo: &Repository,
    ranges: Seq<PlannedCommitChange>,
    options: MergeOptions,
    trees: Seq<ObjectId>,
) -> bool {
    &&& 0 < trees.len() <= ranges.len() + 1
    &&& forall|k: int|
        0 <= k < trees.len() - 1 ==> #[trigger] follows(repo, ranges, options, trees, k)
}

/// Whether an outcome is the last of the accumulated trees, or the conflict with the next range.
pub open spec fn comes_of(
    repo: &Repository,
    ranges: Seq<PlannedCommitChange>,
    options: MergeOptions,
    trees: Seq<ObjectId>,
    outcome: OutcomeView,
) -> bool {
    match outcome.conflict {
        None => trees.len() == ranges.len() + 1 && outcome.tree_id == trees.last(),
        Some(conflict) => {
            let next = ranges[trees.len() - 1];
            &&& trees.len() <= ranges.len()
            &&& range_applied(repo, next, trees.last(), options) == Some(
                MergedTreeView {
                    tree: outcome.tree_id,
                    unresolved: Some(conflict.conflict_entries),
                },
            )
            &&& conflict.base_tree_id == next.base_tree_id
            &&& conflict.ours_tree_id == trees.last()
            &&& repo.spec_tree(next.commit_id, TreeKind::AutoResolution) == Ok::<_, StopView>(
                conflict.theirs_tree_id,
            )
        },
    }
}

/// The tree on which several ranges are merged: that of the best merge base of their tips.
pub open spec fn is_start(
    repo: &Repository,
    ranges: Seq<PlannedCommitChange>,
    tree: ObjectId,
) -> bool {
    match repo.spec_octopus_base(Seq::new(ranges.len(), |k: int| ranges[k].commit_id)) {
        Err(_) => false,
        Ok(merge_base) => repo.spec_tree(merge_base, TreeKind::AutoResolution) == Ok::<_, StopView>(
            tree,
        ),
    }
}

/// If the selection makes several ranges, the outcome is theirs alone: it is reached from the tree
/// of the merge base of their tips by applying one range after the other, each to what came of the
/// one before, with the options that are asked for.
pub proof fn law_ranges_are_applied_to_their_merge_base(
    repo: &Repository,
    commit_ids: Seq<ObjectId>,
    options: MergeOptions,
)
    requires
        plan(repo, commit_ids) is Ok,
        plan(repo, commit_ids)->Ok_0.len() > 1,
        merge_outcome(repo, commit_ids, options) is Ok,
    ensures
        ({
            let ranges = plan(repo, commit_ids)->Ok_0;
            let outcome = merge_outcome(repo, commit_ids, options)->Ok_0;
            exists|trees: Seq<ObjectId>|
                {
                    &&& #[trigger] accumulates(repo, ranges, options, trees)
                    &&& is_start(repo, ranges, trees[0])
                    &&& comes_of(repo, ranges, options, trees, outcome)
                }
        }),
{
    let ranges = plan(repo, commit_ids)->Ok_0;
    let outcome = merge_outcome(repo, commit_ids, options)->Ok_0;
    assert(range_tips(ranges) =~= Seq::new(ranges.len(), |k: int| ranges[k].commit_id));
    let merge_base = repo.spec_octopus_base(range_tips(ranges))->Ok_0;
    let start = repo.spec_tree(merge_base, TreeKind::AutoResolution)->Ok_0;
    let trees = lemma_fold_accumulates(repo, ranges, start, options);
    assert(accumulates(repo, ranges, options, trees));
}

/// Where it is known what each range comes to, and until one conflicts, the merge comes to the
/// outcome that they lead to.
pub proof fn law_known_merges_lead_to_an_outcome(
    repo: &Repository,
    commit_ids: Seq<ObjectId>,
    options: MergeOptions,
    trees: Seq<ObjectId>,
    outcome: OutcomeView,
)
    requires
        plan(repo, commit_ids) is Ok,
        plan(repo, commit_ids)->Ok_0.len() > 1,
        accumulates(repo, plan(repo, commit_ids)->Ok_0, options, trees),
        is_start(repo, plan(repo, commit_ids)->Ok_0, trees[0]),
        comes_of(repo, plan(repo, commit_ids)->Ok_0, options, trees, outcome),
    ensures
        merge_outcome(repo, commit_ids, options) == Ok::<_, StopView>(outcome),
{
    let ranges = plan(repo, commit_ids)->Ok_0;
    assert(range_tips(ranges) =~= Seq::new(ranges.len(), |k: int| ranges[k].commit_id));
    lemma_accumulated_is_folded(repo, ranges, options, trees, outcome);
}

proof fn lemma_fold_accumulates(
    repo: &Repository,
    ranges: Seq<PlannedCommitChange>,
    start: ObjectId,
    options: MergeOptions,
) -> (trees: Seq<ObjectId>)
    requires
        fold_ranges(repo, ranges, start, options) is Ok,
    ensures
        accumulates(repo, ranges, options, trees),
        trees[0] == start,
        comes_of(repo, ranges, options, trees, fold_ranges(repo, ranges, start, options)->Ok_0),
    decreases ranges.len(),
{
    if ranges.len() == 0 {
        seq![start]
    } else {
        let merged = range_applied(repo, ranges[0], start, options)->Some_0;
        match merged.unresolved {
            Some(_) => seq![start],
            None => {
                let rest = ranges.drop_first();
                let later = lemma_fold_accumulates(repo, rest, merged.tree, options);
                let trees = seq![start] + later;
                assert forall|k: int| 0 <= k < trees.len() - 1 implies #[trigger] follows(
                    repo,
                    ranges,
                    options,
                    trees,
                    k,
                ) by {
                    if k > 0 {
                        assert(follows(repo, rest, options, later, k - 1));
                    }
                }
                assert(trees.last() == later.last());
                trees
            },
        }
    }
}

proof fn lemma_accumulated_is_folded(
    repo: &Repository,
    ranges: Seq<PlannedCommitChange>,
    options: MergeOptions,
    trees: Seq<ObjectId>,
    outcome: OutcomeView,
)
    requires
        accumulates(repo, ranges, options, trees),
        comes_of(repo, ranges, options, trees, outcome),
    ensures
        fold_ranges(repo, ranges, trees[0], options) == Ok::<_, StopView>(outcome),
    decreases trees.len(),
{
    if trees.len() > 1 {
        let rest = ranges.drop_first();
        let later = trees.drop_first();
        assert(follows(repo, ranges, options, trees, 0));
        assert forall|k: int| 0 <= k < later.len() - 1 implies #[trigger] follows(
            repo,
            rest,
            options,
            later,
            k,
        ) by {
            assert(follows(repo, ranges, options, trees, k + 1));
        }
        assert(later.last() == trees.last());
        lemma_accumulated_is_folded(repo, rest, options, later, outcome);
    } else if let Some(conflict) = outcome.conflict {
        assert(trees.last() == trees[0]);
    }
}

/// A selection of a single range keeps the tree of its commit, and the conflict that the commit
/// records if it is conflicted. What a conflicted commit fails to record is a failure.
pub proof fn law_single_range_keeps_the_recorded_conflict(
    repo: &Repository,
    commit_ids: Seq<ObjectId>,
    options: MergeOptions,
    fact: CommitFact,
    tree: ObjectId,
)
    requires
        plan(repo, commit_ids) is Ok,
        plan(repo, commit_ids)->Ok_0.len() == 1,
        repo.spec_commit(plan(repo, commit_ids)->Ok_0[0].commit_id) == Ok::<_, StopView>(fact),
        repo.spec_tree(
            plan(repo, commit_ids)->Ok_0[0].commit_id,
            TreeKind::AutoResolution,
        ) == Ok::<_, StopView>(tree),
    ensures
        ({
            let commit = plan(repo, commit_ids)->Ok_0[0].commit_id;
            let outcome = merge_outcome(repo, commit_ids, options);
            &&& !fact.conflicted ==> outcome == Ok::<_, StopView>(
                OutcomeView { tree_id: tree, conflict: None },
            )
            &&& fact.conflicted && outcome is Ok ==> {
                &&& outcome->Ok_0.tree_id == tree
                &&& outcome->Ok_0.conflict matches Some(conflict) && {
                    &&& repo.spec_conflicted_trees(commit) == Ok::<_, StopView>(
                        Some(
                            ConflictedTrees {
                                base: conflict.base_tree_id,
                                ours: conflict.ours_tree_id,
                                theirs: conflict.theirs_tree_id,
                            },
                        ),
                    )
                    &&& repo.spec_conflict_entries(commit) == Ok::<_, StopView>(
                        Some(conflict.conflict_entries),
                    )
                }
            }
            &&& fact.conflicted && repo.spec_conflicted_trees(commit) == Ok::<_, StopView>(
                None::<ConflictedTrees>,
            ) ==> outcome == Err::<OutcomeView, _>(
                StopView::Failed(FailureView::MissingConflictedTrees),
            )
            &&& fact.conflicted && (repo.spec_conflicted_trees(commit) matches Ok(Some(_)))
                && repo.spec_conflict_entries(commit) == Ok::<_, StopView>(
                None::<Seq<Seq<u8>>>,
            ) ==> outcome == Err::<OutcomeView, _>(
                StopView::Failed(FailureView::MissingConflictEntries),
            )
            &&& (repo.spec_conflicted_trees(commit) matches Ok(Some(_))) && (
            repo.spec_conflict_entries(commit) matches Ok(Some(_))) ==> outcome is Ok
        }),
{
}

/// The trees of a trial merge are those that are asked about; it stops at the first conflict,
/// favours no side, tracks no renames and names no sides.
pub proof fn law_trial_merge_is_of_the_given_trees(
    base: ObjectId,
    ours: ObjectId,
    theirs: ObjectId,
)
    ensures
        ({
            let merge = trial_merge(base, ours, theirs);
            &&& merge.base == base
            &&& merge.ours == ours
            &&& merge.theirs == theirs
            &&& merge.labels == MergeLabels::Unnamed
            &&& merge.options.tree_favor is None
            &&& merge.options.file_favor is None
            &&& merge.options.renames == RenameTracking::Disabled
            &&& merge.options.fail_on_conflict matches Some(kind) && kind.content_merge
                == ContentMerge::ForcedResolution && kind.tree_merge
                == TreeMergeKind::ForcedResolution
        }),
{
}

} // verus!

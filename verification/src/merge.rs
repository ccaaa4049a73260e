//! Merging the changes of selected commits into one tree, and picking commits onto others.
use crate::merge_options::{
    configured, forced_resolution, FileFavor, MergeLabels, MergeOptions, RenameTracking,
    TreatAsUnresolved, TreeFavor, TreeMerge,
};
use crate::object_id::{empty_tree, ObjectId};
use crate::plan::{plan, plan_commit_changes_for_merge, range_tips, PlannedCommitChange};
use crate::repository::{ConflictEntries, Repository, TreeKind};
use crate::stop::{Failure, FailureView, Stop, StopView};
use vstd::prelude::*;

verus! {

/// What is needed to record the conflict of a merge as a conflicted commit.
#[derive(Debug, PartialEq, Eq)]
pub struct MergeCommitChangesConflict {
    /// The base tree of the conflicted merge.
    pub base_tree_id: ObjectId,
    /// The accumulated tree on our side of the conflicted merge.
    pub ours_tree_id: ObjectId,
    /// The tree of the selected commit on their side of the conflicted merge.
    pub theirs_tree_id: ObjectId,
    /// The paths that remained conflicted after conflicts were resolved automatically.
    pub conflict_entries: ConflictEntries,
}

/// A [`MergeCommitChangesConflict`] with its paths as sequences.
pub struct ConflictView {
    pub base_tree_id: ObjectId,
    pub ours_tree_id: ObjectId,
    pub theirs_tree_id: ObjectId,
    pub conflict_entries: Seq<Seq<u8>>,
}

impl View for MergeCommitChangesConflict {
    type V = ConflictView;

    open spec fn view(&self) -> ConflictView {
        ConflictView {
            base_tree_id: self.base_tree_id,
            ours_tree_id: self.ours_tree_id,
            theirs_tree_id: self.theirs_tree_id,
            conflict_entries: self.conflict_entries@,
        }
    }
}

/// The result of merging the changes of selected commits into one tree.
#[derive(Debug, PartialEq, Eq)]
pub struct MergeCommitChangesOutcome {
    /// The resulting tree. If there is a conflict, it is resolved automatically here.
    pub tree_id: ObjectId,
    /// The merge that stayed unresolved, if one did.
    pub conflict: Option<MergeCommitChangesConflict>,
}

/// A [`MergeCommitChangesOutcome`] with its paths as sequences.
pub struct OutcomeView {
    pub tree_id: ObjectId,
    pub conflict: Option<ConflictView>,
}

impl View for MergeCommitChangesOutcome {
    type V = OutcomeView;

    open spec fn view(&self) -> OutcomeView {
        OutcomeView {
            tree_id: self.tree_id,
            conflict: match self.conflict {
                Some(conflict) => Some(conflict@),
                None => None,
            },
        }
    }
}

/// The tree of a single commit, with the conflict that it records if it is conflicted.
pub open spec fn outcome_of_commit(repo: &Repository, commit: ObjectId) -> Result<
    OutcomeView,
    StopView,
> {
    match repo.spec_commit(commit) {
        Err(stop) => Err(stop),
        Ok(fact) => match repo.spec_tree(commit, TreeKind::AutoResolution) {
            Err(stop) => Err(stop),
            Ok(tree_id) => if !fact.conflicted {
                Ok(OutcomeView { tree_id, conflict: None })
            } else {
                match repo.spec_conflicted_trees(commit) {
                    Err(stop) => Err(stop),
                    Ok(None) => Err(StopView::Failed(FailureView::MissingConflictedTrees)),
                    Ok(Some(trees)) => match repo.spec_conflict_entries(commit) {
                        Err(stop) => Err(stop),
                        Ok(None) => Err(StopView::Failed(FailureView::MissingConflictEntries)),
                        Ok(Some(entries)) => Ok(
                            OutcomeView {
                                tree_id,
                                conflict: Some(
                                    ConflictView {
                                        base_tree_id: trees.base,
                                        ours_tree_id: trees.ours,
                                        theirs_tree_id: trees.theirs,
                                        conflict_entries: entries,
                                    },
                                ),
                            },
                        ),
                    },
                }
            },
        },
    }
}

/// The merge of a change range into an accumulated tree.
pub open spec fn range_merge(
    range: PlannedCommitChange,
    ours: ObjectId,
    theirs: ObjectId,
    options: MergeOptions,
) -> TreeMerge {
    TreeMerge {
        base: range.base_tree_id,
        ours,
        theirs,
        labels: MergeLabels::Sides,
        options,
    }
}

/// The outcome of merging change ranges, one after the other, into a tree. The first conflict
/// ends it.
pub open spec fn fold_ranges(
    repo: &Repository,
    ranges: Seq<PlannedCommitChange>,
    ours: ObjectId,
    options: MergeOptions,
) -> Result<OutcomeView, StopView>
    decreases ranges.len(),
{
    if ranges.len() == 0 {
        Ok(OutcomeView { tree_id: ours, conflict: None })
    } else {
        let range = ranges.first();
        match repo.spec_tree(range.commit_id, TreeKind::AutoResolution) {
            Err(stop) => Err(stop),
            Ok(theirs) => match repo.spec_merged_tree(
                range_merge(range, ours, theirs, options),
                forced_resolution(),
            ) {
                Err(stop) => Err(stop),
                Ok(merged) => match merged.unresolved {
                    None => fold_ranges(repo, ranges.drop_first(), merged.tree, options),
                    Some(entries) => Ok(
                        OutcomeView {
                            tree_id: merged.tree,
                            conflict: Some(
                                ConflictView {
                                    base_tree_id: range.base_tree_id,
                                    ours_tree_id: ours,
                                    theirs_tree_id: theirs,
                                    conflict_entries: entries,
                                },
                            ),
                        },
                    ),
                },
            },
        }
    }
}

/// The outcome of merging the changes of selected commits.
pub open spec fn merge_outcome(
    repo: &Repository,
    commit_ids: Seq<ObjectId>,
    options: MergeOptions,
) -> Result<OutcomeView, StopView> {
    match plan(repo, commit_ids) {
        Err(stop) => Err(stop),
        Ok(ranges) => if ranges.len() == 0 {
            Err(StopView::Failed(FailureView::NoCommits))
        } else if ranges.len() == 1 {
            outcome_of_commit(repo, ranges[0].commit_id)
        } else {
            match repo.spec_octopus_base(range_tips(ranges)) {
                Err(stop) => Err(stop),
                Ok(merge_base) => match repo.spec_tree(merge_base, TreeKind::AutoResolution) {
                    Err(stop) => Err(stop),
                    Ok(ours) => fold_ranges(repo, ranges, ours, options),
                },
            }
        },
    }
}

/// Reads the tree of a single commit, with the conflict that it records.
fn read_outcome_of_commit(repo: &Repository, commit_id: ObjectId) -> (r: Result<
    MergeCommitChangesOutcome,
    Stop,
>)
    ensures
        match outcome_of_commit(repo, commit_id) {
            Ok(outcome) => r is Ok && r->Ok_0@ == outcome,
            Err(stop) => r is Err && r->Err_0@ == stop,
        },
{
    let conflicted = repo.commit(commit_id)?.conflicted;
    let tree_id = repo.tree(commit_id, TreeKind::AutoResolution)?;
    if !conflicted {
        return Ok(MergeCommitChangesOutcome { tree_id, conflict: None });
    }
    let trees = match repo.conflicted_trees_of(commit_id)? {
        Some(trees) => trees,
        None => {
            return Err(Stop::Failed(Failure::MissingConflictedTrees));
        },
    };
    let conflict_entries = match repo.conflict_entries_of(commit_id)? {
        Some(entries) => entries,
        None => {
            return Err(Stop::Failed(Failure::MissingConflictEntries));
        },
    };
    Ok(
        MergeCommitChangesOutcome {
            tree_id,
            conflict: Some(
                MergeCommitChangesConflict {
                    base_tree_id: trees.base,
                    ours_tree_id: trees.ours,
                    theirs_tree_id: trees.theirs,
                    conflict_entries,
                },
            ),
        },
    )
}

/// The commits that change ranges end with.
fn tips_of(ranges: &Vec<PlannedCommitChange>) -> (r: Vec<ObjectId>)
    ensures
        r@ == range_tips(ranges@),
{
    let mut tips: Vec<ObjectId> = Vec::with_capacity(ranges.len());
    let mut i: usize = 0;
    while i < ranges.len()
        invariant
            i <= ranges.len(),
            tips@ == range_tips(ranges@).take(i as int),
        decreases ranges.len() - i,
    {
        tips.push(ranges[i].commit_id);
        i = i + 1;
    }
    assert(range_tips(ranges@).take(i as int) =~= range_tips(ranges@));
    tips
}

/// Merges change ranges, one after the other, into a tree.
fn merge_ranges(
    repo: &Repository,
    ranges: &Vec<PlannedCommitChange>,
    start: ObjectId,
    merge_options: MergeOptions,
) -> (r: Result<MergeCommitChangesOutcome, Stop>)
    ensures
        match fold_ranges(repo, ranges@, start, merge_options) {
            Ok(outcome) => r is Ok && r->Ok_0@ == outcome,
            Err(stop) => r is Err && r->Err_0@ == stop,
        },
{
    let conflict_kind = TreatAsUnresolved::forced_resolution();
    let mut ours = start;
    let mut i: usize = 0;
    assert(ranges@.skip(0) =~= ranges@);
    while i < ranges.len()
        invariant
            i <= ranges.len(),
            conflict_kind == forced_resolution(),
            fold_ranges(repo, ranges@, start, merge_options) == fold_ranges(
                repo,
                ranges@.skip(i as int),
                ours,
                merge_options,
            ),
        decreases ranges.len() - i,
    {
        let range = ranges[i];
        assert(ranges@.skip(i as int).first() == range);
        assert(ranges@.skip(i as int).drop_first() =~= ranges@.skip(i + 1));
        let theirs = repo.tree(range.commit_id, TreeKind::AutoResolution)?;
        let merge = TreeMerge {
            base: range.base_tree_id,
            ours,
            theirs,
            labels: MergeLabels::Sides,
            options: merge_options,
        };
        let merged = repo.merge_trees(merge, conflict_kind)?;
        if let Some(entries) = &merged.unresolved {
            return Ok(
                MergeCommitChangesOutcome {
                    tree_id: merged.tree,
                    conflict: Some(
                        MergeCommitChangesConflict {
                            base_tree_id: range.base_tree_id,
                            ours_tree_id: ours,
                            theirs_tree_id: theirs,
                            conflict_entries: entries.duplicate(),
                        },
                    ),
                },
            );
        }
        ours = merged.tree;
        i = i + 1;
    }
    Ok(MergeCommitChangesOutcome { tree_id: ours, conflict: None })
}

impl Repository {
    /// Merges the changes of the selected commits, and only these, into one tree.
    ///
    /// The selection becomes change ranges. A single range is not merged: its commit's tree is the
    /// result as it stands. Several are merged, one after the other, into the tree of the merge
    /// base that they share, until one conflicts; later ones are then left out.
    pub fn merge_commit_changes_to_tree(
        &self,
        commit_ids: Vec<ObjectId>,
        merge_options: MergeOptions,
    ) -> (r: Result<MergeCommitChangesOutcome, Stop>)
        ensures
            match merge_outcome(self, commit_ids@, merge_options) {
                Ok(outcome) => r is Ok && r->Ok_0@ == outcome,
                Err(stop) => r is Err && r->Err_0@ == stop,
            },
    {
        let merge_plan = plan_commit_changes_for_merge(self, commit_ids)?;
        if merge_plan.len() == 0 {
            return Err(Stop::Failed(Failure::NoCommits));
        }
        if merge_plan.len() == 1 {
            return read_outcome_of_commit(self, merge_plan[0].commit_id);
        }
        let tips = tips_of(&merge_plan);
        let merge_base = self.merge_base_octopus(tips.as_slice())?;
        let ours = self.tree(merge_base, TreeKind::AutoResolution)?;
        merge_ranges(self, &merge_plan, ours, merge_options)
    }

    /// The trees of a cherry-pick: the changes from the picked commit's base to its tree are to be
    /// applied to the tree of the new base.
    ///
    /// A conflicted commit keeps the base that it had when it was picked first; otherwise the base
    /// is the first parent, or the empty tree for a root. The picked tree is the side that was
    /// being applied if the commit is conflicted.
    pub fn cherry_pick_commits_to_tree(
        &self,
        new_base_commit_id: ObjectId,
        to_rebase_commit_id: ObjectId,
        merge_options: MergeOptions,
    ) -> (r: Result<TreeMerge, Stop>)
        ensures
            match cherry_pick(self, new_base_commit_id, to_rebase_commit_id, merge_options) {
                Ok(merge) => r == Ok::<TreeMerge, Stop>(merge),
                Err(stop) => r is Err && r->Err_0@ == stop,
            },
            r matches Ok(merge) ==> {
                &&& merge.options == merge_options
                &&& merge.labels == MergeLabels::Sides
                &&& self.spec_tree(new_base_commit_id, TreeKind::AutoResolution) == Ok::<
                    _,
                    StopView,
                >(merge.ours)
                &&& self.spec_tree(to_rebase_commit_id, TreeKind::Theirs) == Ok::<_, StopView>(
                    merge.theirs,
                )
            },
    {
        let to_rebase_commit = self.commit(to_rebase_commit_id)?;
        let base = if to_rebase_commit.conflicted {
            self.tree(to_rebase_commit_id, TreeKind::Base)?
        } else if to_rebase_commit.parents.len() > 0 {
            self.tree(to_rebase_commit.parents[0], TreeKind::AutoResolution)?
        } else {
            ObjectId::empty_tree()
        };
        let ours = self.tree(new_base_commit_id, TreeKind::AutoResolution)?;
        let theirs = self.tree(to_rebase_commit_id, TreeKind::Theirs)?;
        Ok(
            TreeMerge {
                base,
                ours,
                theirs,
                labels: self.default_merge_labels(),
                options: merge_options,
            },
        )
    }

    /// Whether two trees merge without a conflict. Renames are not tracked for this.
    pub fn merges_cleanly(
        &self,
        ancestor_tree: ObjectId,
        our_tree: ObjectId,
        their_tree: ObjectId,
    ) -> (r: Result<bool, Stop>)
        ensures
            match self.spec_clean_merge(
                trial_merge(ancestor_tree, our_tree, their_tree),
                forced_resolution(),
            ) {
                Ok(clean) => r == Ok::<bool, Stop>(clean),
                Err(stop) => r is Err && r->Err_0@ == stop,
            },
    {
        let (options, conflict_kind) = self.merge_options_no_rewrites_fail_fast();
        let merge = TreeMerge {
            base: ancestor_tree,
            ours: our_tree,
            theirs: their_tree,
            labels: MergeLabels::Unnamed,
            options,
        };
        self.is_clean_merge(merge, conflict_kind)
    }

    /// The names of the sides of a merge.
    pub fn default_merge_labels(&self) -> (r: MergeLabels)
        ensures
            r == MergeLabels::Sides,
    {
        MergeLabels::Sides
    }

    /// Options by which conflicts are resolved in favour of our side, in trees and in files.
    pub fn merge_options_force_ours(&self) -> (r: MergeOptions)
        ensures
            r == force_ours(),
            r.tree_favor == Some(TreeFavor::Ours),
            r.file_favor == Some(FileFavor::Ours),
            r.fail_on_conflict is None,
            r.renames == RenameTracking::AsConfigured,
    {
        MergeOptions {
            tree_favor: Some(TreeFavor::Ours),
            file_favor: Some(FileFavor::Ours),
            fail_on_conflict: None,
            renames: RenameTracking::AsConfigured,
        }
    }

    /// Options by which a merge stops at the first conflict, and what counts as one.
    pub fn merge_options_fail_fast(&self) -> (r: (MergeOptions, TreatAsUnresolved))
        ensures
            r.0 == fail_fast(),
            r.0.tree_favor is None,
            r.0.file_favor is None,
            r.0.fail_on_conflict == Some(r.1),
            r.0.renames == RenameTracking::AsConfigured,
            r.1 == forced_resolution(),
    {
        let conflict_kind = TreatAsUnresolved::forced_resolution();
        let options = MergeOptions {
            tree_favor: None,
            file_favor: None,
            fail_on_conflict: Some(conflict_kind),
            renames: RenameTracking::AsConfigured,
        };
        (options, conflict_kind)
    }

    /// As [`Repository::merge_options_fail_fast`], and renames are not tracked.
    pub fn merge_options_no_rewrites_fail_fast(&self) -> (r: (MergeOptions, TreatAsUnresolved))
        ensures
            r.0 == (MergeOptions { renames: RenameTracking::Disabled, ..fail_fast() }),
            r.0.tree_favor is None,
            r.0.file_favor is None,
            r.0.fail_on_conflict == Some(r.1),
            r.0.renames == RenameTracking::Disabled,
            r.1 == forced_resolution(),
    {
        let (options, conflict_kind) = self.merge_options_fail_fast();
        (MergeOptions { renames: RenameTracking::Disabled, ..options }, conflict_kind)
    }
}

/// Options that favour our side, and change nothing else of the configured ones.
pub open spec fn force_ours() -> MergeOptions {
    MergeOptions {
        tree_favor: Some(TreeFavor::Ours),
        file_favor: Some(FileFavor::Ours),
        ..configured()
    }
}

/// Options that stop at the first conflict, and change nothing else of the configured ones.
pub open spec fn fail_fast() -> MergeOptions {
    MergeOptions { fail_on_conflict: Some(forced_resolution()), ..configured() }
}

/// The merge by which it is tried whether trees merge without a conflict.
pub open spec fn trial_merge(base: ObjectId, ours: ObjectId, theirs: ObjectId) -> TreeMerge {
    TreeMerge {
        base,
        ours,
        theirs,
        labels: MergeLabels::Unnamed,
        options: MergeOptions { renames: RenameTracking::Disabled, ..fail_fast() },
    }
}

/// The tree from which the changes of a picked commit are measured.
pub open spec fn pick_base(repo: &Repository, commit: ObjectId) -> Result<ObjectId, StopView> {
    match repo.spec_commit(commit) {
        Err(stop) => Err(stop),
        Ok(fact) => if fact.conflicted {
            repo.spec_tree(commit, TreeKind::Base)
        } else if fact.parents@.len() > 0 {
            repo.spec_tree(fact.parents@[0], TreeKind::AutoResolution)
        } else {
            Ok(empty_tree())
        },
    }
}

/// The merge by which a commit is picked onto another.
pub open spec fn cherry_pick(
    repo: &Repository,
    new_base: ObjectId,
    commit: ObjectId,
    options: MergeOptions,
) -> Result<TreeMerge, StopView> {
    match pick_base(repo, commit) {
        Err(stop) => Err(stop),
        Ok(base) => match repo.spec_tree(new_base, TreeKind::AutoResolution) {
            Err(stop) => Err(stop),
            Ok(ours) => match repo.spec_tree(commit, TreeKind::Theirs) {
                Err(stop) => Err(stop),
                Ok(theirs) => Ok(
                    TreeMerge { base, ours, theirs, labels: MergeLabels::Sides, options },
                ),
            },
        },
    }
}

} // verus!

//! Which answer counts where something was read of a repository more than once.
use crate::facts::{latest, Fact};
use crate::merge_options::{TreatAsUnresolved, TreeMerge};
use crate::object_id::ObjectId;
use crate::repository::{
    ChangeIdFact, CleanMergeFact, CommitFact, ConflictEntriesFact, ConflictMarkersFact,
    ConflictedTreeFact, ConflictedTrees, ConflictedTreesFact, FirstParentsFact, MergeBaseFact,
    MergedTreeFact, OctopusBaseFact, QueryView, ReferenceFact, Repository, TrackingFact, TreeFact,
    TreeKind, WorktreeFileFact,
};
use crate::stop::StopView;
use vstd::prelude::*;

verus! {

/// Whether the `i`th of some answers is the last that is about something.
pub open spec fn is_last_answer<F>(facts: Seq<F>, about: spec_fn(F) -> bool, i: int) -> bool {
    &&& 0 <= i < facts.len()
    &&& about(facts[i])
    &&& forall|j: int| i < j < facts.len() ==> !about(#[trigger] facts[j])
}

/// Whether a result is what the last answer about something tells, or the open question if there
/// is no such answer.
pub open spec fn is_told<F, T>(
    facts: Seq<F>,
    about: spec_fn(F) -> bool,
    told: spec_fn(F) -> T,
    result: Result<T, StopView>,
    query: QueryView,
) -> bool {
    match result {
        Ok(value) => exists|i: int| #[trigger]
            is_last_answer(facts, about, i) && told(facts[i]) == value,
        Err(stop) => stop == StopView::Unknown(query) && forall|i: int|
            0 <= i < facts.len() ==> !about(#[trigger] facts[i]),
    }
}

proof fn lemma_latest_is_told<F: Fact, T>(
    facts: Seq<F>,
    key: F::Key,
    about: spec_fn(F) -> bool,
    told: spec_fn(F) -> T,
    query: QueryView,
)
    requires
        forall|fact: F| #[trigger] about(fact) <==> fact.key() == key,
    ensures
        is_told(
            facts,
            about,
            told,
            match latest(facts, key) {
                Some(fact) => Ok(told(fact)),
                None => Err(StopView::Unknown(query)),
            },
            query,
        ),
    decreases facts.len(),
{
    if facts.len() > 0 {
        let last = facts.len() - 1;
        assert(about(facts[last]) <==> facts.last().key() == key);
        if about(facts[last]) {
            assert(is_last_answer(facts, about, last));
        } else {
            let before = facts.drop_last();
            lemma_latest_is_told(before, key, about, told, query);
            match latest(before, key) {
                Some(fact) => {
                    let i = choose|i: int| #[trigger]
                        is_last_answer(before, about, i) && told(before[i]) == told(fact);
                    assert forall|j: int| i < j < facts.len() implies !about(
                        #[trigger] facts[j],
                    ) by {
                        if j < last {
                            assert(before[j] == facts[j]);
                        }
                    }
                    assert(is_last_answer(facts, about, i));
                },
                None => {
                    assert forall|i: int| 0 <= i < facts.len() implies !about(
                        #[trigger] facts[i],
                    ) by {
                        if i < last {
                            assert(before[i] == facts[i]);
                        }
                    }
                },
            }
        }
    }
}

/// A commit is what was read of it last.
pub proof fn law_commit_is_read_from_the_last_answer(
    repo: &Repository,
    id: ObjectId,
)
    ensures
        is_told(
            repo.commits@,
            |fact: CommitFact| fact.id == id,
            |fact: CommitFact| fact,
            repo.spec_commit(id),
            QueryView::Commit { id },
        ),
{
    lemma_latest_is_told(
        repo.commits@,
        id,
        |fact: CommitFact| fact.id == id,
        |fact: CommitFact| fact,
        QueryView::Commit { id },
    );
}

/// A tree of a commit is the one of that kind that was read last.
pub proof fn law_tree_is_read_from_the_last_answer(
    repo: &Repository,
    commit: ObjectId,
    kind: TreeKind,
)
    ensures
        is_told(
            repo.trees@,
            |fact: TreeFact| fact.commit == commit && fact.kind == kind,
            |fact: TreeFact| fact.tree,
            repo.spec_tree(commit, kind),
            QueryView::Tree { commit, kind },
        ),
{
    lemma_latest_is_told(
        repo.trees@,
        (commit, kind),
        |fact: TreeFact| fact.commit == commit && fact.kind == kind,
        |fact: TreeFact| fact.tree,
        QueryView::Tree { commit, kind },
    );
}

/// The trees of a recorded conflict are those that were read last.
pub proof fn law_conflicted_trees_are_read_from_the_last_answer(
    repo: &Repository,
    commit: ObjectId,
)
    ensures
        is_told(
            repo.conflicted_trees@,
            |fact: ConflictedTreesFact| fact.commit == commit,
            |fact: ConflictedTreesFact| fact.trees,
            repo.spec_conflicted_trees(commit),
            QueryView::ConflictedTrees { commit },
        ),
{
    lemma_latest_is_told(
        repo.conflicted_trees@,
        commit,
        |fact: ConflictedTreesFact| fact.commit == commit,
        |fact: ConflictedTreesFact| fact.trees,
        QueryView::ConflictedTrees { commit },
    );
}

/// The paths of a recorded conflict are those that were read last.
pub proof fn law_conflict_entries_are_read_from_the_last_answer(
    repo: &Repository,
    commit: ObjectId,
)
    ensures
        is_told(
            repo.conflict_entries@,
            |fact: ConflictEntriesFact| fact.commit == commit,
            |fact: ConflictEntriesFact| match fact.entries {
                Some(entries) => Some(entries@),
                None => None,
            },
            repo.spec_conflict_entries(commit),
            QueryView::ConflictEntries { commit },
        ),
{
    lemma_latest_is_told(
        repo.conflict_entries@,
        commit,
        |fact: ConflictEntriesFact| fact.commit == commit,
        |fact: ConflictEntriesFact| match fact.entries {
                Some(entries) => Some(entries@),
                None => None,
            },
        QueryView::ConflictEntries { commit },
    );
}

/// The merge base of several commits is the one that was read last for exactly these, in this
/// order.
pub proof fn law_shared_base_is_read_from_the_last_answer(
    repo: &Repository,
    commits: Seq<ObjectId>,
)
    ensures
        is_told(
            repo.octopus_bases@,
            |fact: OctopusBaseFact| fact.commits@ == commits,
            |fact: OctopusBaseFact| fact.base,
            repo.spec_octopus_base(commits),
            QueryView::OctopusBase { commits },
        ),
{
    lemma_latest_is_told(
        repo.octopus_bases@,
        commits,
        |fact: OctopusBaseFact| fact.commits@ == commits,
        |fact: OctopusBaseFact| fact.base,
        QueryView::OctopusBase { commits },
    );
}

/// The outcome of a merge is the one that was read last for the same trees, labels and options,
/// and with the same conflicts counted.
pub proof fn law_merged_tree_is_read_from_the_last_answer(
    repo: &Repository,
    merge: TreeMerge,
    unresolved_if: TreatAsUnresolved,
)
    ensures
        is_told(
            repo.merged_trees@,
            |fact: MergedTreeFact| fact.merge == merge && fact.unresolved_if == unresolved_if,
            |fact: MergedTreeFact| fact.merged@,
            repo.spec_merged_tree(merge, unresolved_if),
            QueryView::MergedTree { merge, unresolved_if },
        ),
{
    lemma_latest_is_told(
        repo.merged_trees@,
        (merge, unresolved_if),
        |fact: MergedTreeFact| fact.merge == merge && fact.unresolved_if == unresolved_if,
        |fact: MergedTreeFact| fact.merged@,
        QueryView::MergedTree { merge, unresolved_if },
    );
}

/// Whether a merge is clean is what was read last for the same trees, labels and options, and with
/// the same conflicts counted.
pub proof fn law_clean_merge_is_read_from_the_last_answer(
    repo: &Repository,
    merge: TreeMerge,
    unresolved_if: TreatAsUnresolved,
)
    ensures
        is_told(
            repo.clean_merges@,
            |fact: CleanMergeFact| fact.merge == merge && fact.unresolved_if == unresolved_if,
            |fact: CleanMergeFact| fact.clean,
            repo.spec_clean_merge(merge, unresolved_if),
            QueryView::CleanMerge { merge, unresolved_if },
        ),
{
    lemma_latest_is_told(
        repo.clean_merges@,
        (merge, unresolved_if),
        |fact: CleanMergeFact| fact.merge == merge && fact.unresolved_if == unresolved_if,
        |fact: CleanMergeFact| fact.clean,
        QueryView::CleanMerge { merge, unresolved_if },
    );
}

/// The tree that stores a conflict is the one that was written last for the same conflict.
pub proof fn law_conflicted_tree_is_read_from_the_last_answer(
    repo: &Repository,
    resolved: ObjectId,
    trees: ConflictedTrees,
    entries: Seq<Seq<u8>>,
)
    ensures
        is_told(
            repo.conflicted_tree_objects@,
            |fact: ConflictedTreeFact|
                fact.resolved == resolved && fact.trees == trees && fact.entries@ == entries,
            |fact: ConflictedTreeFact| fact.tree,
            repo.spec_conflicted_tree(resolved, trees, entries),
            QueryView::ConflictedTree { resolved, trees, entries },
        ),
{
    lemma_latest_is_told(
        repo.conflicted_tree_objects@,
        (resolved, trees, entries),
        |fact: ConflictedTreeFact|
            fact.resolved == resolved && fact.trees == trees && fact.entries@ == entries,
        |fact: ConflictedTreeFact| fact.tree,
        QueryView::ConflictedTree { resolved, trees, entries },
    );
}

/// A marked message is the last one that was made of the message.
pub proof fn law_marked_message_is_read_from_the_last_answer(
    repo: &Repository,
    message: Seq<u8>,
)
    ensures
        is_told(
            repo.conflict_markers@,
            |fact: ConflictMarkersFact| fact.message@ == message,
            |fact: ConflictMarkersFact| fact.marked@,
            repo.spec_conflict_markers(message),
            QueryView::ConflictMarkers { message },
        ),
{
    lemma_latest_is_told(
        repo.conflict_markers@,
        message,
        |fact: ConflictMarkersFact| fact.message@ == message,
        |fact: ConflictMarkersFact| fact.marked@,
        QueryView::ConflictMarkers { message },
    );
}

/// The tip of a reference is the one that was read last.
pub proof fn law_reference_is_read_from_the_last_answer(
    repo: &Repository,
    name: Seq<u8>,
)
    ensures
        is_told(
            repo.references@,
            |fact: ReferenceFact| fact.name@ == name,
            |fact: ReferenceFact| fact.tip,
            repo.spec_reference(name),
            QueryView::Reference { name },
        ),
{
    lemma_latest_is_told(
        repo.references@,
        name,
        |fact: ReferenceFact| fact.name@ == name,
        |fact: ReferenceFact| fact.tip,
        QueryView::Reference { name },
    );
}

/// The reference that a branch tracks is the one that was read last.
pub proof fn law_tracking_branch_is_read_from_the_last_answer(
    repo: &Repository,
    name: Seq<u8>,
)
    ensures
        is_told(
            repo.tracking_branches@,
            |fact: TrackingFact| fact.name@ == name,
            |fact: TrackingFact| match fact.tracking {
                Some(tracking) => Some(tracking@),
                None => None,
            },
            repo.spec_tracking_branch(name),
            QueryView::TrackingBranch { name },
        ),
{
    lemma_latest_is_told(
        repo.tracking_branches@,
        name,
        |fact: TrackingFact| fact.name@ == name,
        |fact: TrackingFact| match fact.tracking {
                Some(tracking) => Some(tracking@),
                None => None,
            },
        QueryView::TrackingBranch { name },
    );
}

/// The merge base of two commits is the one that was read last for these two, in this order.
pub proof fn law_merge_base_is_read_from_the_last_answer(
    repo: &Repository,
    one: ObjectId,
    two: ObjectId,
)
    ensures
        is_told(
            repo.merge_bases@,
            |fact: MergeBaseFact| fact.one == one && fact.two == two,
            |fact: MergeBaseFact| fact.base,
            repo.spec_merge_base(one, two),
            QueryView::MergeBase { one, two },
        ),
{
    lemma_latest_is_told(
        repo.merge_bases@,
        (one, two),
        |fact: MergeBaseFact| fact.one == one && fact.two == two,
        |fact: MergeBaseFact| fact.base,
        QueryView::MergeBase { one, two },
    );
}

/// The commits along first parents are those that were read last for the tip, with the same commit
/// hidden.
pub proof fn law_first_parents_are_read_from_the_last_answer(
    repo: &Repository,
    tip: ObjectId,
    hidden: ObjectId,
)
    ensures
        is_told(
            repo.first_parents@,
            |fact: FirstParentsFact| fact.tip == tip && fact.hidden == hidden,
            |fact: FirstParentsFact| fact.commits@,
            repo.spec_first_parents(tip, hidden),
            QueryView::FirstParents { tip, hidden },
        ),
{
    lemma_latest_is_told(
        repo.first_parents@,
        (tip, hidden),
        |fact: FirstParentsFact| fact.tip == tip && fact.hidden == hidden,
        |fact: FirstParentsFact| fact.commits@,
        QueryView::FirstParents { tip, hidden },
    );
}

/// The change that a commit is a version of is the one that was read last.
pub proof fn law_change_is_read_from_the_last_answer(
    repo: &Repository,
    commit: ObjectId,
)
    ensures
        is_told(
            repo.change_ids@,
            |fact: ChangeIdFact| fact.commit == commit,
            |fact: ChangeIdFact| fact.change_id@,
            repo.spec_change_id(commit),
            QueryView::ChangeId { commit },
        ),
{
    lemma_latest_is_told(
        repo.change_ids@,
        commit,
        |fact: ChangeIdFact| fact.commit == commit,
        |fact: ChangeIdFact| fact.change_id@,
        QueryView::ChangeId { commit },
    );
}

/// What is stored for a file of the worktree is what was stored last.
pub proof fn law_worktree_file_is_read_from_the_last_answer(
    repo: &Repository,
    path: Seq<u8>,
)
    ensures
        is_told(
            repo.worktree_files@,
            |fact: WorktreeFileFact| fact.path@ == path,
            |fact: WorktreeFileFact| fact.file,
            repo.spec_worktree_file(path),
            QueryView::WorktreeFile { path },
        ),
{
    lemma_latest_is_told(
        repo.worktree_files@,
        path,
        |fact: WorktreeFileFact| fact.path@ == path,
        |fact: WorktreeFileFact| fact.file,
        QueryView::WorktreeFile { path },
    );
}

/// The differences, the persons, the dates and the time are what was read of them, and open
/// questions until then.
pub proof fn law_single_answers_are_told(repo: &Repository)
    ensures
        match repo.status {
            Some(items) => repo.spec_status() == Ok::<_, StopView>(items@),
            None => repo.spec_status() is Err,
        },
        match repo.author {
            Some(Some(actor)) => repo.spec_author() matches Ok(Some(author)) && author.name
                == actor.name@ && author.email == actor.email@ && author.time == actor.time@,
            Some(None) => repo.spec_author() matches Ok(None),
            None => repo.spec_author() is Err,
        },
        match repo.gitbutler_committer {
            Some(flag) => repo.spec_gitbutler_committer() == Ok::<_, StopView>(flag),
            None => repo.spec_gitbutler_committer() is Err,
        },
        match repo.committer {
            Some(Some(actor)) => repo.spec_committer() matches Ok(Some(committer))
                && committer.name == actor.name@ && committer.email == actor.email@
                && committer.time == actor.time@,
            Some(None) => repo.spec_committer() matches Ok(None),
            None => repo.spec_committer() is Err,
        },
        match repo.committer_date {
            Some(Some(date)) => repo.spec_committer_date() == Ok::<_, StopView>(Some(date@)),
            Some(None) => repo.spec_committer_date() matches Ok(None),
            None => repo.spec_committer_date() is Err,
        },
        match repo.clock {
            Some(clock) => repo.spec_clock() == Ok::<_, StopView>(clock),
            None => repo.spec_clock() is Err,
        },
        repo.spec_status() matches Err(stop) ==> stop == StopView::Unknown(QueryView::Status),
        repo.spec_author() matches Err(stop) ==> stop == StopView::Unknown(QueryView::Author),
        repo.spec_gitbutler_committer() matches Err(stop) ==> stop == StopView::Unknown(
            QueryView::GitbutlerCommitter,
        ),
        repo.spec_committer() matches Err(stop) ==> stop == StopView::Unknown(
            QueryView::Committer,
        ),
        repo.spec_committer_date() matches Err(stop) ==> stop == StopView::Unknown(
            QueryView::CommitterDate,
        ),
        repo.spec_clock() matches Err(stop) ==> stop == StopView::Unknown(QueryView::Clock),
{
}

/// Of a repository of which nothing was read nothing is known.
pub proof fn law_nothing_is_known_of_an_unread_repository(repo: &Repository)
    requires
        repo.is_unread(),
    ensures
        forall|id: ObjectId| repo.spec_commit(id) is Err,
        forall|commit: ObjectId, kind: TreeKind| repo.spec_tree(commit, kind) is Err,
        forall|commit: ObjectId| repo.spec_conflicted_trees(commit) is Err,
        forall|commit: ObjectId| repo.spec_conflict_entries(commit) is Err,
        forall|commits: Seq<ObjectId>| repo.spec_octopus_base(commits) is Err,
        forall|merge: TreeMerge, kind: TreatAsUnresolved| repo.spec_merged_tree(merge, kind) is Err,
        forall|merge: TreeMerge, kind: TreatAsUnresolved| repo.spec_clean_merge(merge, kind) is Err,
        forall|resolved: ObjectId, trees: ConflictedTrees, entries: Seq<Seq<u8>>|
            repo.spec_conflicted_tree(resolved, trees, entries) is Err,
        forall|message: Seq<u8>| repo.spec_conflict_markers(message) is Err,
        forall|name: Seq<u8>| repo.spec_reference(name) is Err,
        forall|name: Seq<u8>| repo.spec_tracking_branch(name) is Err,
        forall|one: ObjectId, two: ObjectId| repo.spec_merge_base(one, two) is Err,
        forall|tip: ObjectId, hidden: ObjectId| repo.spec_first_parents(tip, hidden) is Err,
        forall|commit: ObjectId| repo.spec_change_id(commit) is Err,
        forall|path: Seq<u8>| repo.spec_worktree_file(path) is Err,
        repo.spec_status() is Err,
        repo.spec_author() is Err,
        repo.spec_gitbutler_committer() is Err,
        repo.spec_committer() is Err,
        repo.spec_committer_date() is Err,
        repo.spec_clock() is Err,
{
}

} // verus!

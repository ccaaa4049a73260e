//! What holds when answers about a repository are added.
use crate::facts::{law_new_answer_is_used, latest, Fact};
use crate::repository::{QueryView, Repository};
use crate::stop::StopView;
use vstd::prelude::*;

verus! {

/// Whether every question that a list of answers settles is settled by another list in the same
/// way.
pub open spec fn keeps<F: Fact>(before: Seq<F>, after: Seq<F>) -> bool {
    forall|key: F::Key|
        #![trigger latest(after, key)]
        latest(before, key) is Some ==> latest(after, key) == latest(before, key)
}

/// Whether a list of answers is another one with an answer to one more question.
pub open spec fn one_more<F: Fact>(before: Seq<F>, after: Seq<F>, key: F::Key) -> bool {
    exists|fact: F| after == #[trigger] before.push(fact) && fact.key() == key
}

/// Whether all that is known of a repository stays known, and stays the same.
pub open spec fn keeps_answers(repo: &Repository, more: &Repository) -> bool {
    &&& keeps(repo.commits@, more.commits@)
    &&& keeps(repo.trees@, more.trees@)
    &&& keeps(repo.conflicted_trees@, more.conflicted_trees@)
    &&& keeps(repo.conflict_entries@, more.conflict_entries@)
    &&& keeps(repo.octopus_bases@, more.octopus_bases@)
    &&& keeps(repo.merged_trees@, more.merged_trees@)
    &&& keeps(repo.clean_merges@, more.clean_merges@)
    &&& keeps(repo.conflicted_tree_objects@, more.conflicted_tree_objects@)
    &&& keeps(repo.conflict_markers@, more.conflict_markers@)
    &&& keeps(repo.references@, more.references@)
    &&& keeps(repo.tracking_branches@, more.tracking_branches@)
    &&& keeps(repo.merge_bases@, more.merge_bases@)
    &&& keeps(repo.first_parents@, more.first_parents@)
    &&& keeps(repo.change_ids@, more.change_ids@)
    &&& keeps(repo.worktree_files@, more.worktree_files@)
    &&& repo.status is Some ==> more.status == repo.status
    &&& repo.author is Some ==> more.author == repo.author
    &&& repo.gitbutler_committer is Some ==> more.gitbutler_committer == repo.gitbutler_committer
    &&& repo.committer is Some ==> more.committer == repo.committer
    &&& repo.committer_date is Some ==> more.committer_date == repo.committer_date
    &&& repo.clock is Some ==> more.clock == repo.clock
}

/// Whether a question has no answer yet.
pub open spec fn is_open(repo: &Repository, query: QueryView) -> bool {
    match query {
        QueryView::Commit { id } => latest(repo.commits@, id) is None,
        QueryView::Tree { commit, kind } => latest(repo.trees@, (commit, kind)) is None,
        QueryView::ConflictedTrees { commit } => latest(repo.conflicted_trees@, commit) is None,
        QueryView::ConflictEntries { commit } => latest(repo.conflict_entries@, commit) is None,
        QueryView::OctopusBase { commits } => latest(repo.octopus_bases@, commits) is None,
        QueryView::MergedTree { merge, unresolved_if } => latest(
            repo.merged_trees@,
            (merge, unresolved_if),
        ) is None,
        QueryView::CleanMerge { merge, unresolved_if } => latest(
            repo.clean_merges@,
            (merge, unresolved_if),
        ) is None,
        QueryView::ConflictedTree { resolved, trees, entries } => latest(
            repo.conflicted_tree_objects@,
            (resolved, trees, entries),
        ) is None,
        QueryView::ConflictMarkers { message } => latest(repo.conflict_markers@, message) is None,
        QueryView::Reference { name } => latest(repo.references@, name) is None,
        QueryView::TrackingBranch { name } => latest(repo.tracking_branches@, name) is None,
        QueryView::MergeBase { one, two } => latest(repo.merge_bases@, (one, two)) is None,
        QueryView::FirstParents { tip, hidden } => latest(
            repo.first_parents@,
            (tip, hidden),
        ) is None,
        QueryView::ChangeId { commit } => latest(repo.change_ids@, commit) is None,
        QueryView::WorktreeFile { path } => latest(repo.worktree_files@, path) is None,
        QueryView::Status => repo.status is None,
        QueryView::Author => repo.author is None,
        QueryView::GitbutlerCommitter => repo.gitbutler_committer is None,
        QueryView::Committer => repo.committer is None,
        QueryView::CommitterDate => repo.committer_date is None,
        QueryView::Clock => repo.clock is None,
    }
}

/// Whether a repository is another one with an answer to a question added.
pub open spec fn adds_answer(repo: &Repository, query: QueryView, more: &Repository) -> bool {
    match query {
        QueryView::Commit { id } => {
            &&& one_more(repo.commits@, more.commits@, id)
            &&& *more == (Repository { commits: more.commits, ..*repo })
        },
        QueryView::Tree { commit, kind } => {
            &&& one_more(repo.trees@, more.trees@, (commit, kind))
            &&& *more == (Repository { trees: more.trees, ..*repo })
        },
        QueryView::ConflictedTrees { commit } => {
            &&& one_more(repo.conflicted_trees@, more.conflicted_trees@, commit)
            &&& *more == (Repository { conflicted_trees: more.conflicted_trees, ..*repo })
        },
        QueryView::ConflictEntries { commit } => {
            &&& one_more(repo.conflict_entries@, more.conflict_entries@, commit)
            &&& *more == (Repository { conflict_entries: more.conflict_entries, ..*repo })
        },
        QueryView::OctopusBase { commits } => {
            &&& one_more(repo.octopus_bases@, more.octopus_bases@, commits)
            &&& *more == (Repository { octopus_bases: more.octopus_bases, ..*repo })
        },
        QueryView::MergedTree { merge, unresolved_if } => {
            &&& one_more(repo.merged_trees@, more.merged_trees@, (merge, unresolved_if))
            &&& *more == (Repository { merged_trees: more.merged_trees, ..*repo })
        },
        QueryView::CleanMerge { merge, unresolved_if } => {
            &&& one_more(repo.clean_merges@, more.clean_merges@, (merge, unresolved_if))
            &&& *more == (Repository { clean_merges: more.clean_merges, ..*repo })
        },
        QueryView::ConflictedTree { resolved, trees, entries } => {
            &&& one_more(
                repo.conflicted_tree_objects@,
                more.conflicted_tree_objects@,
                (resolved, trees, entries),
            )
            &&& *more == (Repository {
                conflicted_tree_objects: more.conflicted_tree_objects,
                ..*repo
            })
        },
        QueryView::ConflictMarkers { message } => {
            &&& one_more(repo.conflict_markers@, more.conflict_markers@, message)
            &&& *more == (Repository { conflict_markers: more.conflict_markers, ..*repo })
        },
        QueryView::Reference { name } => {
            &&& one_more(repo.references@, more.references@, name)
            &&& *more == (Repository { references: more.references, ..*repo })
        },
        QueryView::TrackingBranch { name } => {
            &&& one_more(repo.tracking_branches@, more.tracking_branches@, name)
            &&& *more == (Repository { tracking_branches: more.tracking_branches, ..*repo })
        },
        QueryView::MergeBase { one, two } => {
            &&& one_more(repo.merge_bases@, more.merge_bases@, (one, two))
            &&& *more == (Repository { merge_bases: more.merge_bases, ..*repo })
        },
        QueryView::FirstParents { tip, hidden } => {
            &&& one_more(repo.first_parents@, more.first_parents@, (tip, hidden))
            &&& *more == (Repository { first_parents: more.first_parents, ..*repo })
        },
        QueryView::ChangeId { commit } => {
            &&& one_more(repo.change_ids@, more.change_ids@, commit)
            &&& *more == (Repository { change_ids: more.change_ids, ..*repo })
        },
        QueryView::WorktreeFile { path } => {
            &&& one_more(repo.worktree_files@, more.worktree_files@, path)
            &&& *more == (Repository { worktree_files: more.worktree_files, ..*repo })
        },
        QueryView::Status => {
            &&& more.status is Some
            &&& *more == (Repository { status: more.status, ..*repo })
        },
        QueryView::Author => {
            &&& more.author is Some
            &&& *more == (Repository { author: more.author, ..*repo })
        },
        QueryView::GitbutlerCommitter => {
            &&& more.gitbutler_committer is Some
            &&& *more == (Repository { gitbutler_committer: more.gitbutler_committer, ..*repo })
        },
        QueryView::Committer => {
            &&& more.committer is Some
            &&& *more == (Repository { committer: more.committer, ..*repo })
        },
        QueryView::CommitterDate => {
            &&& more.committer_date is Some
            &&& *more == (Repository { committer_date: more.committer_date, ..*repo })
        },
        QueryView::Clock => {
            &&& more.clock is Some
            &&& *more == (Repository { clock: more.clock, ..*repo })
        },
    }
}

/// One more answer to an open question keeps the others.
proof fn lemma_one_more_keeps<F: Fact>(before: Seq<F>, after: Seq<F>, key: F::Key)
    requires
        one_more(before, after, key),
        latest(before, key) is None,
    ensures
        keeps(before, after),
        latest(after, key) is Some,
{
    let fact = choose|fact: F| after == #[trigger] before.push(fact) && fact.key() == key;
    law_new_answer_is_used(before, fact, key);
    assert forall|other: F::Key|
        #![trigger latest(after, other)]
        latest(before, other) is Some implies latest(after, other) == latest(before, other) by {
        law_new_answer_is_used(before, fact, other);
    }
}

/// An answer to an open question settles it, and leaves all that was known as it was.
pub proof fn law_answer_settles_an_open_question(
    repo: &Repository,
    query: QueryView,
    more: &Repository,
)
    requires
        is_open(repo, query),
        adds_answer(repo, query, more),
    ensures
        keeps_answers(repo, more),
        !is_open(more, query),
{
    match query {
        QueryView::Commit { id } => lemma_one_more_keeps(repo.commits@, more.commits@, id),
        QueryView::Tree { commit, kind } => lemma_one_more_keeps(
            repo.trees@,
            more.trees@,
            (commit, kind),
        ),
        QueryView::ConflictedTrees { commit } => lemma_one_more_keeps(
            repo.conflicted_trees@,
            more.conflicted_trees@,
            commit,
        ),
        QueryView::ConflictEntries { commit } => lemma_one_more_keeps(
            repo.conflict_entries@,
            more.conflict_entries@,
            commit,
        ),
        QueryView::OctopusBase { commits } => lemma_one_more_keeps(
            repo.octopus_bases@,
            more.octopus_bases@,
            commits,
        ),
        QueryView::MergedTree { merge, unresolved_if } => lemma_one_more_keeps(
            repo.merged_trees@,
            more.merged_trees@,
            (merge, unresolved_if),
        ),
        QueryView::CleanMerge { merge, unresolved_if } => lemma_one_more_keeps(
            repo.clean_merges@,
            more.clean_merges@,
            (merge, unresolved_if),
        ),
        QueryView::ConflictedTree { resolved, trees, entries } => lemma_one_more_keeps(
            repo.conflicted_tree_objects@,
            more.conflicted_tree_objects@,
            (resolved, trees, entries),
        ),
        QueryView::ConflictMarkers { message } => lemma_one_more_keeps(
            repo.conflict_markers@,
            more.conflict_markers@,
            message,
        ),
        QueryView::Reference { name } => lemma_one_more_keeps(
            repo.references@,
            more.references@,
            name,
        ),
        QueryView::TrackingBranch { name } => lemma_one_more_keeps(
            repo.tracking_branches@,
            more.tracking_branches@,
            name,
        ),
        QueryView::MergeBase { one, two } => lemma_one_more_keeps(
            repo.merge_bases@,
            more.merge_bases@,
            (one, two),
        ),
        QueryView::FirstParents { tip, hidden } => lemma_one_more_keeps(
            repo.first_parents@,
            more.first_parents@,
            (tip, hidden),
        ),
        QueryView::ChangeId { commit } => lemma_one_more_keeps(
            repo.change_ids@,
            more.change_ids@,
            commit,
        ),
        QueryView::WorktreeFile { path } => lemma_one_more_keeps(
            repo.worktree_files@,
            more.worktree_files@,
            path,
        ),
        _ => {},
    }
}

/// Whether a result rests on what is known: it asks an open question, or it is the same for
/// whoever knows more.
pub open spec fn is_settled<T>(
    repo: &Repository,
    here: Result<T, StopView>,
    there: Result<T, StopView>,
) -> bool {
    match here {
        Err(StopView::Unknown(query)) => is_open(repo, query),
        _ => there == here,
    }
}

} // verus!

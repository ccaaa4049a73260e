//! Views leave nothing out: what has the same view has the same parts.
use crate::bytes::byte_strings;
use crate::integration::editor::{
    agrees, agrees_in_view, Command, CommitDraft, Editor, Run, SelectorSet,
};
use crate::integration::steps::{step_views, InteractiveIntegrationStep};
use crate::merge::{MergeCommitChangesConflict, MergeCommitChangesOutcome};
use crate::repository::{ConflictEntries, MergedTree, Query};
use crate::signature::{Actor, Signature};
use crate::stop::{Failure, Stop};
use crate::worktree::{edit_views, TreeEdit};
use vstd::prelude::*;

verus! {

/// Whether two texts may be missing, and are the same if they are there.
pub open spec fn same_text(one: Option<String>, two: Option<String>) -> bool {
    match (one, two) {
        (Some(a), Some(b)) => a@ == b@,
        (None, None) => true,
        _ => false,
    }
}

/// Persons and signatures with the same view have the same name, address and time.
pub proof fn law_signatures_show_everything(a: Actor, b: Actor, one: Signature, two: Signature)
    ensures
        a@ == b@ ==> a.name@ == b.name@ && a.email@ == b.email@ && a.time@ == b.time@,
        one@ == two@ ==> one.name@ == two.name@ && one.email@ == two.email@ && one.time == two.time,
{
}

/// Outcomes of merges with the same view have the same trees, and the same conflicts.
pub proof fn law_outcomes_show_everything(
    a: MergeCommitChangesOutcome,
    b: MergeCommitChangesOutcome,
    one: MergedTree,
    two: MergedTree,
)
    ensures
        a@ == b@ ==> {
            &&& a.tree_id == b.tree_id
            &&& match (a.conflict, b.conflict) {
                (Some(here), Some(there)) => same_conflict(here, there),
                (None, None) => true,
                _ => false,
            }
        },
        one@ == two@ ==> {
            &&& one.tree == two.tree
            &&& match (one.unresolved, two.unresolved) {
                (Some(here), Some(there)) => same_paths(here, there),
                (None, None) => true,
                _ => false,
            }
        },
{
    if a@ == b@ {
        if let (Some(here), Some(there)) = (a.conflict, b.conflict) {
            assert(a@.conflict == Some(here@));
            assert(b@.conflict == Some(there@));
            lemma_paths(here.conflict_entries, there.conflict_entries);
        }
    }
    if one@ == two@ {
        if let (Some(here), Some(there)) = (one.unresolved, two.unresolved) {
            assert(one@.unresolved == Some(here@));
            assert(two@.unresolved == Some(there@));
            lemma_paths(here, there);
        }
    }
}

/// Whether two conflicts have the same trees and paths.
pub open spec fn same_conflict(
    one: MergeCommitChangesConflict,
    two: MergeCommitChangesConflict,
) -> bool {
    &&& one.base_tree_id == two.base_tree_id
    &&& one.ours_tree_id == two.ours_tree_id
    &&& one.theirs_tree_id == two.theirs_tree_id
    &&& same_paths(one.conflict_entries, two.conflict_entries)
}

/// Whether two lists hold the same paths in the same order.
pub open spec fn same_paths(one: ConflictEntries, two: ConflictEntries) -> bool {
    &&& one.paths@.len() == two.paths@.len()
    &&& forall|k: int| 0 <= k < one.paths@.len() ==> (#[trigger] one.paths@[k])@ == two.paths@[k]@
}

proof fn lemma_paths(one: ConflictEntries, two: ConflictEntries)
    requires
        one@ == two@,
    ensures
        same_paths(one, two),
{
    assert(one.paths@.len() == one@.len());
    assert(two.paths@.len() == two@.len());
    assert forall|k: int| 0 <= k < one.paths@.len() implies (#[trigger] one.paths@[k])@
        == two.paths@[k]@ by {
        assert(one@[k] == one.paths@[k]@);
        assert(two@[k] == two.paths@[k]@);
    }
}

/// Edits and steps with the same view are of the same sort, and have the same parts.
pub proof fn law_edits_and_steps_show_everything(
    a: TreeEdit,
    b: TreeEdit,
    one: InteractiveIntegrationStep,
    two: InteractiveIntegrationStep,
)
    ensures
        a@ == b@ ==> match (a, b) {
            (TreeEdit::Remove { path }, TreeEdit::Remove { path: other }) => path@ == other@,
            (
                TreeEdit::Upsert { path, kind, id },
                TreeEdit::Upsert { path: other, kind: other_kind, id: other_id },
            ) => path@ == other@ && kind == other_kind && id == other_id,
            _ => false,
        },
        one@ == two@ ==> match (one, two) {
            (
                InteractiveIntegrationStep::Skip { commit_id },
                InteractiveIntegrationStep::Skip { commit_id: other },
            ) => commit_id == other,
            (
                InteractiveIntegrationStep::Pick { commit_id },
                InteractiveIntegrationStep::Pick { commit_id: other },
            ) => commit_id == other,
            (
                InteractiveIntegrationStep::PickUpstream { commit_id },
                InteractiveIntegrationStep::PickUpstream { commit_id: other },
            ) => commit_id == other,
            (
                InteractiveIntegrationStep::Squash { commits, message },
                InteractiveIntegrationStep::Squash { commits: others, message: other },
            ) => commits@ == others@ && same_text(message, other),
            _ => false,
        },
{
}

/// Whether two sets select the same neighbours.
pub open spec fn same_set(one: SelectorSet, two: SelectorSet) -> bool {
    match (one, two) {
        (SelectorSet::All, SelectorSet::All) => true,
        (SelectorSet::Nothing, SelectorSet::Nothing) => true,
        (SelectorSet::Only(list), SelectorSet::Only(other)) => list@ == other@,
        _ => false,
    }
}

/// Whether two drafts are of the same commit.
pub open spec fn same_draft(one: CommitDraft, two: CommitDraft) -> bool {
    &&& one.like == two.like
    &&& one.parents@ == two.parents@
    &&& one.tree == two.tree
    &&& one.message@ == two.message@
}

/// Whether two commands are the same, part by part.
pub open spec fn same_command(one: Command, two: Command) -> bool {
    match (one, two) {
        (Command::SelectReference { name }, Command::SelectReference { name: other }) => name@
            == other@,
        (Command::SelectCommit { id }, Command::SelectCommit { id: other }) => id == other,
        (Command::TrySelectCommit { id }, Command::TrySelectCommit { id: other }) => id == other,
        (Command::DetermineParents { of }, Command::DetermineParents { of: other }) => of == other,
        (
            Command::ResolveSelector { selector },
            Command::ResolveSelector { selector: other },
        ) => selector == other,
        (Command::DirectChildren { of }, Command::DirectChildren { of: other }) => of == other,
        (Command::DirectParents { of }, Command::DirectParents { of: other }) => of == other,
        (
            Command::DisconnectSegment { segment, children, parents },
            Command::DisconnectSegment {
                segment: other,
                children: other_children,
                parents: other_parents,
            },
        ) => segment == other && same_set(children, other_children) && same_set(
            parents,
            other_parents,
        ),
        (Command::LookupStep { of }, Command::LookupStep { of: other }) => of == other,
        (
            Command::InsertBelow { target, step },
            Command::InsertBelow { target: other, step: other_step },
        ) => target == other && step == other_step,
        (
            Command::AddEdge { child, parent, order },
            Command::AddEdge { child: other_child, parent: other_parent, order: other },
        ) => child == other_child && parent == other_parent && order == other,
        (
            Command::OrderByParentage { selectors },
            Command::OrderByParentage { selectors: others },
        ) => selectors@ == others@,
        (
            Command::FindSelectableCommit { selector },
            Command::FindSelectableCommit { selector: other },
        ) => selector == other,
        (Command::FindCommit { id }, Command::FindCommit { id: other }) => id == other,
        (
            Command::NewCommit { draft, dates },
            Command::NewCommit { draft: other, dates: other_dates },
        ) => same_draft(draft, other) && dates == other_dates,
        (Command::Rebase, Command::Rebase) => true,
        _ => false,
    }
}

/// Commands with the same view are the same command, with the same parts.
pub proof fn law_commands_show_everything(one: Command, two: Command)
    ensures
        one@ == two@ ==> same_command(one, two),
{
}

/// Whether two questions are the same, part by part.
pub open spec fn same_query(one: Query, two: Query) -> bool {
    match (one, two) {
        (Query::Commit { id }, Query::Commit { id: other }) => id == other,
        (
            Query::Tree { commit, kind },
            Query::Tree { commit: other, kind: other_kind },
        ) => commit == other && kind == other_kind,
        (
            Query::ConflictedTrees { commit },
            Query::ConflictedTrees { commit: other },
        ) => commit == other,
        (
            Query::ConflictEntries { commit },
            Query::ConflictEntries { commit: other },
        ) => commit == other,
        (Query::OctopusBase { commits }, Query::OctopusBase { commits: others }) => commits@
            == others@,
        (
            Query::MergedTree { merge, unresolved_if },
            Query::MergedTree { merge: other, unresolved_if: other_kind },
        ) => merge == other && unresolved_if == other_kind,
        (
            Query::CleanMerge { merge, unresolved_if },
            Query::CleanMerge { merge: other, unresolved_if: other_kind },
        ) => merge == other && unresolved_if == other_kind,
        (
            Query::ConflictedTree { resolved, trees, entries },
            Query::ConflictedTree { resolved: other, trees: other_trees, entries: others },
        ) => resolved == other && trees == other_trees && same_paths(entries, others),
        (
            Query::ConflictMarkers { message },
            Query::ConflictMarkers { message: other },
        ) => message@ == other@,
        (Query::Reference { name }, Query::Reference { name: other }) => name@ == other@,
        (Query::TrackingBranch { name }, Query::TrackingBranch { name: other }) => name@ == other@,
        (
            Query::MergeBase { one: a, two: b },
            Query::MergeBase { one: other_a, two: other_b },
        ) => a == other_a && b == other_b,
        (
            Query::FirstParents { tip, hidden },
            Query::FirstParents { tip: other, hidden: other_hidden },
        ) => tip == other && hidden == other_hidden,
        (Query::ChangeId { commit }, Query::ChangeId { commit: other }) => commit == other,
        (Query::Status, Query::Status) => true,
        (Query::WorktreeFile { path }, Query::WorktreeFile { path: other }) => path@ == other@,
        (Query::Author, Query::Author) => true,
        (Query::GitbutlerCommitter, Query::GitbutlerCommitter) => true,
        (Query::Committer, Query::Committer) => true,
        (Query::CommitterDate, Query::CommitterDate) => true,
        (Query::Clock, Query::Clock) => true,
        _ => false,
    }
}

/// Questions with the same view are the same question, with the same parts.
pub proof fn law_queries_show_everything(one: Query, two: Query)
    ensures
        one@ == two@ ==> same_query(one, two),
{
    if one@ == two@ {
        if let (
            Query::ConflictedTree { resolved: _, trees: _, entries },
            Query::ConflictedTree { resolved: _, trees: _, entries: others },
        ) = (one, two) {
            lemma_paths(entries, others);
        }
    }
}

/// Whether two failures are the same, part by part.
pub open spec fn same_failure(one: Failure, two: Failure) -> bool {
    match (one, two) {
        (Failure::NoCommits, Failure::NoCommits) => true,
        (
            Failure::CyclicHistory { commit },
            Failure::CyclicHistory { commit: other },
        ) => commit == other,
        (Failure::MissingConflictedTrees, Failure::MissingConflictedTrees) => true,
        (Failure::MissingConflictEntries, Failure::MissingConflictEntries) => true,
        (Failure::AuthorMissing, Failure::AuthorMissing) => true,
        (Failure::NoSteps, Failure::NoSteps) => true,
        (Failure::SquashTooSmall, Failure::SquashTooSmall) => true,
        (Failure::EdgeNotFound, Failure::EdgeNotFound) => true,
        (Failure::EdgeOrderOverflow, Failure::EdgeOrderOverflow) => true,
        (Failure::UnexpectedReply, Failure::UnexpectedReply) => true,
        (
            Failure::LocalBranchNotFound { name },
            Failure::LocalBranchNotFound { name: other },
        ) => name@ == other@,
        (
            Failure::NoTrackingBranch { name },
            Failure::NoTrackingBranch { name: other },
        ) => name@ == other@,
        (
            Failure::TrackingBranchNotFound { name, tracking },
            Failure::TrackingBranchNotFound { name: other, tracking: other_tracking },
        ) => name@ == other@ && tracking@ == other_tracking@,
        (
            Failure::NoMergeBase { name, tracking },
            Failure::NoMergeBase { name: other, tracking: other_tracking },
        ) => name@ == other@ && tracking@ == other_tracking@,
        _ => false,
    }
}

/// Reasons to stop with the same view are the same reason, with the same parts.
pub proof fn law_stops_show_everything(one: Stop, two: Stop)
    ensures
        one@ == two@ ==> match (one, two) {
            (Stop::Unknown(query), Stop::Unknown(other)) => same_query(query, other),
            (Stop::Pending(command), Stop::Pending(other)) => same_command(command, other),
            (Stop::Failed(failure), Stop::Failed(other)) => same_failure(failure, other),
            _ => false,
        },
{
    if one@ == two@ {
        match (one, two) {
            (Stop::Unknown(query), Stop::Unknown(other)) => {
                law_queries_show_everything(query, other);
            },
            (Stop::Pending(command), Stop::Pending(other)) => {
                law_commands_show_everything(command, other);
            },
            (Stop::Failed(failure), Stop::Failed(other)) => {
                assert(failure@ == other@);
            },
            _ => {},
        }
    }
}

/// A list of views shows every item of the list in its place.
pub proof fn law_lists_show_every_item(
    edits: Seq<TreeEdit>,
    steps: Seq<InteractiveIntegrationStep>,
    paths: Seq<Vec<u8>>,
)
    ensures
        edit_views(edits).len() == edits.len(),
        forall|k: int| 0 <= k < edits.len() ==> #[trigger] edit_views(edits)[k] == edits[k]@,
        step_views(steps).len() == steps.len(),
        forall|k: int| 0 <= k < steps.len() ==> #[trigger] step_views(steps)[k] == steps[k]@,
        byte_strings(paths).len() == paths.len(),
        forall|k: int| 0 <= k < paths.len() ==> #[trigger] byte_strings(paths)[k] == paths[k]@,
{
}

/// An operation on an editor leaves the replies alone. It comes to the value that a run comes to,
/// after as many replies, and stops where the run stops.
pub proof fn law_operations_follow_their_runs<T>(
    run: Run<T>,
    before: Editor,
    after: Editor,
    r: Result<T, Stop>,
)
    requires
        agrees(run, before, after, r),
    ensures
        after.replies@ == before.replies@,
        r matches Ok(found) ==> run matches Run::Done { value, next } && found == value
            && after.next == next,
        r matches Err(stop) ==> run == Run::<T>::Stopped(stop@),
{
}

/// As [`law_operations_follow_their_runs`], for values that are compared by their views.
pub proof fn law_operations_follow_their_runs_in_view<T: View>(
    run: Run<T::V>,
    before: Editor,
    after: Editor,
    r: Result<T, Stop>,
)
    requires
        agrees_in_view(run, before, after, r),
    ensures
        after.replies@ == before.replies@,
        r matches Ok(found) ==> run matches Run::Done { value, next } && found@ == value
            && after.next == next,
        r matches Err(stop) ==> run == Run::<T::V>::Stopped(stop@),
{
}

} // verus!

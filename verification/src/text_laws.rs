//! What holds of the texts that users read.
use crate::integration::steps::{
    quoted, spaced_ids, squash_text, step_text, steps_text, IntegrationStepView,
};
use crate::object_id::{hex, ObjectId};
use crate::stop::{failure_names, failure_text, FailureView};
use vstd::prelude::*;

verus! {

/// Ids are written one after the other, each in hexadecimal after a space.
pub proof fn law_ids_are_written_in_turn(ids: Seq<ObjectId>, further: Seq<ObjectId>, id: ObjectId)
    ensures
        spaced_ids(Seq::empty()) == Seq::<char>::empty(),
        spaced_ids(seq![id]) == " "@ + hex(id.bytes@),
        spaced_ids(ids + further) == spaced_ids(ids) + spaced_ids(further),
    decreases further.len(),
{
    let one = seq![id];
    assert(one.drop_last() =~= Seq::empty());
    assert(spaced_ids(one) == spaced_ids(one.drop_last()) + " "@ + hex(id.bytes@));
    assert(spaced_ids(one) =~= " "@ + hex(id.bytes@));
    if further.len() == 0 {
        assert(ids + further =~= ids);
        assert(spaced_ids(ids) + spaced_ids(further) =~= spaced_ids(ids));
    } else {
        let last = " "@ + hex(further.last().bytes@);
        assert((ids + further).drop_last() =~= ids + further.drop_last());
        law_ids_are_written_in_turn(ids, further.drop_last(), id);
        assert(spaced_ids(ids + further) =~= spaced_ids(ids + further.drop_last()) + last);
        assert(spaced_ids(further) =~= spaced_ids(further.drop_last()) + last);
        assert(spaced_ids(ids + further) =~= spaced_ids(ids) + spaced_ids(further));
    }
}

/// A step is written as what it does and the commit that it does it to. A squash names its commits
/// in turn, and then its message in quotes if it has one.
pub proof fn law_step_is_written_with_its_commits(
    commit_id: ObjectId,
    commits: Seq<ObjectId>,
    text: Seq<char>,
)
    ensures
        step_text(IntegrationStepView::Skip { commit_id }) == "skip "@ + hex(commit_id.bytes@),
        step_text(IntegrationStepView::Pick { commit_id }) == "pick "@ + hex(commit_id.bytes@),
        step_text(IntegrationStepView::PickUpstream { commit_id }) == "pick-upstream "@ + hex(
            commit_id.bytes@,
        ),
        step_text(IntegrationStepView::Squash { commits: Seq::empty(), message: None })
            == "squash"@,
        step_text(IntegrationStepView::Squash { commits: commits.push(commit_id), message: None })
            == step_text(IntegrationStepView::Squash { commits, message: None }) + " "@ + hex(
            commit_id.bytes@,
        ),
        step_text(IntegrationStepView::Squash { commits, message: Some(text) }) == step_text(
            IntegrationStepView::Squash { commits, message: None },
        ) + " | message="@ + quoted(text),
        squash_text(commits, Some(text)) == squash_text(commits, None) + " | message="@ + text,
{
    let none = Seq::<char>::empty();
    let empty = Seq::<ObjectId>::empty();
    assert("squash"@ + spaced_ids(empty) + none =~= "squash"@);
    assert(commits.push(commit_id).drop_last() =~= commits);
    assert(squash_text(commits, None) =~= "squash"@ + spaced_ids(commits));
    assert(squash_text(commits.push(commit_id), None) =~= squash_text(commits, None) + " "@ + hex(
        commit_id.bytes@,
    ));
    assert(squash_text(commits, Some(text)) =~= squash_text(commits, None) + " | message="@ + text);
    assert(squash_text(commits, Some(quoted(text))) =~= squash_text(commits, None) + " | message="@
        + quoted(text));
}

/// Steps are written on lines of their own, in order.
pub proof fn law_steps_are_written_line_by_line(
    steps: Seq<IntegrationStepView>,
    further: Seq<IntegrationStepView>,
    step: IntegrationStepView,
)
    ensures
        steps_text(Seq::empty()) == Seq::<char>::empty(),
        steps_text(seq![step]) == step_text(step) + "\n"@,
        steps_text(steps + further) == steps_text(steps) + steps_text(further),
    decreases further.len(),
{
    let one = seq![step];
    assert(one.drop_last() =~= Seq::empty());
    assert(steps_text(one) == steps_text(one.drop_last()) + step_text(step) + "\n"@);
    assert(steps_text(one) =~= step_text(step) + "\n"@);
    if further.len() == 0 {
        assert(steps + further =~= steps);
        assert(steps_text(steps) + steps_text(further) =~= steps_text(steps));
    } else {
        let last = step_text(further.last()) + "\n"@;
        assert((steps + further).drop_last() =~= steps + further.drop_last());
        law_steps_are_written_line_by_line(steps, further.drop_last(), step);
        assert(steps_text(steps + further) =~= steps_text(steps + further.drop_last()) + last);
        assert(steps_text(further) =~= steps_text(further.drop_last()) + last);
        assert(steps_text(steps + further) =~= steps_text(steps) + steps_text(further));
    }
}

/// What a user is told of a branch names the branch, and the reference that it tracks where that is
/// the matter. What is told of anything else names neither.
pub proof fn law_failures_name_their_branches(
    failure: FailureView,
    name: Seq<char>,
    tracking: Seq<char>,
    other_name: Seq<char>,
    other_tracking: Seq<char>,
)
    ensures
        match failure {
            FailureView::LocalBranchNotFound { name: bytes } => {
                &&& failure_names(failure).0 == bytes
                &&& failure_text(failure, name, tracking) == "Couldn't find local branch '"@ + name
                    + "'"@
            },
            FailureView::NoTrackingBranch { name: bytes } => {
                &&& failure_names(failure).0 == bytes
                &&& failure_text(failure, name, tracking) == "Branch '"@ + name
                    + "' has no tracking branch"@
            },
            FailureView::TrackingBranchNotFound { name: bytes, tracking: upstream } => {
                &&& failure_names(failure) == (bytes, upstream)
                &&& failure_text(failure, name, tracking) == "Couldn't find tracking branch '"@
                    + tracking + "' for local branch '"@ + name + "'"@
            },
            FailureView::NoMergeBase { name: bytes, tracking: upstream } => {
                &&& failure_names(failure) == (bytes, upstream)
                &&& failure_text(failure, name, tracking) == "No merge-base found between '"@ + name
                    + "' and its tracking branch '"@ + tracking + "'"@
            },
            FailureView::CyclicHistory { commit } => failure_text(failure, name, tracking)
                == "The first parents of commit "@ + hex(commit.bytes@) + " lead back to it"@,
            _ => failure_text(failure, name, tracking) == failure_text(
                failure,
                other_name,
                other_tracking,
            ),
        },
        failure_text(FailureView::NoCommits, name, tracking)
            == "Cannot merge an empty set of commits"@,
        failure_text(FailureView::MissingConflictedTrees, name, tracking)
            == "conflicted commit is missing conflicted tree sides"@,
        failure_text(FailureView::MissingConflictEntries, name, tracking)
            == "conflicted commit is missing conflict entries"@,
        failure_text(FailureView::NoSteps, name, tracking)
            == "Integration steps cannot be empty"@,
        failure_text(FailureView::SquashTooSmall, name, tracking)
            == "Squash step must have at least two commits"@,
        failure_text(FailureView::EdgeNotFound, name, tracking)
            == "Selected edge endpoint wasn't found among direct neighbors"@,
{
}

} // verus!

//! Why an operation did not come to a result.
use crate::integration::editor::{Command, CommandView};
use crate::object_id::{hex, ObjectId};
use crate::repository::{Query, QueryView};
use vstd::prelude::*;
use vstd::utf8::{decode_utf8, valid_utf8};

verus! {

/// Why an operation failed for good.
#[derive(Debug, PartialEq, Eq)]
pub enum Failure {
    /// There is no commit to merge.
    NoCommits,
    /// The first parents of a selected commit lead back to itself.
    CyclicHistory { commit: ObjectId },
    /// A conflicted commit does not record the trees of its conflict.
    MissingConflictedTrees,
    /// A conflicted commit does not record its conflicted paths.
    MissingConflictEntries,
    /// No author is configured.
    AuthorMissing,
    /// There are no steps to follow.
    NoSteps,
    /// A squash names fewer than two commits.
    SquashTooSmall,
    /// A selected neighbour is no neighbour.
    EdgeNotFound,
    /// The position of a new edge is too large a number.
    EdgeOrderOverflow,
    /// The editor's reply does not fit its command.
    UnexpectedReply,
    /// There is no such local branch.
    LocalBranchNotFound { name: Vec<u8> },
    /// A branch tracks no other.
    NoTrackingBranch { name: Vec<u8> },
    /// The reference that a branch tracks does not exist.
    TrackingBranchNotFound { name: Vec<u8>, tracking: Vec<u8> },
    /// A branch shares no history with the reference that it tracks.
    NoMergeBase { name: Vec<u8>, tracking: Vec<u8> },
}

/// A [`Failure`] with its names as sequences.
pub enum FailureView {
    NoCommits,
    CyclicHistory { commit: ObjectId },
    MissingConflictedTrees,
    MissingConflictEntries,
    AuthorMissing,
    NoSteps,
    SquashTooSmall,
    EdgeNotFound,
    EdgeOrderOverflow,
    UnexpectedReply,
    LocalBranchNotFound { name: Seq<u8> },
    NoTrackingBranch { name: Seq<u8> },
    TrackingBranchNotFound { name: Seq<u8>, tracking: Seq<u8> },
    NoMergeBase { name: Seq<u8>, tracking: Seq<u8> },
}

impl View for Failure {
    type V = FailureView;

    open spec fn view(&self) -> FailureView {
        match *self {
            Failure::NoCommits => FailureView::NoCommits,
            Failure::CyclicHistory { commit } => FailureView::CyclicHistory { commit },
            Failure::MissingConflictedTrees => FailureView::MissingConflictedTrees,
            Failure::MissingConflictEntries => FailureView::MissingConflictEntries,
            Failure::AuthorMissing => FailureView::AuthorMissing,
            Failure::NoSteps => FailureView::NoSteps,
            Failure::SquashTooSmall => FailureView::SquashTooSmall,
            Failure::EdgeNotFound => FailureView::EdgeNotFound,
            Failure::EdgeOrderOverflow => FailureView::EdgeOrderOverflow,
            Failure::UnexpectedReply => FailureView::UnexpectedReply,
            Failure::LocalBranchNotFound { name } =>
                FailureView::LocalBranchNotFound { name: name@ },
            Failure::NoTrackingBranch { name } => FailureView::NoTrackingBranch { name: name@ },
            Failure::TrackingBranchNotFound { name, tracking } =>
                FailureView::TrackingBranchNotFound { name: name@, tracking: tracking@ },
            Failure::NoMergeBase { name, tracking } =>
                FailureView::NoMergeBase { name: name@, tracking: tracking@ },
        }
    }
}

/// A name as text, with what is not UTF-8 in it replaced.
pub uninterp spec fn lossy_text(name: Seq<u8>) -> Seq<char>;

/// Calls the `Display` of `bstr::BStr`, through `format!`. What it writes is named; of that it is
/// stated that UTF-8 is decoded. How it replaces what is not UTF-8 is not stated.
#[verifier::external_body]
fn display_name(name: &[u8]) -> (r: String)
    ensures
        r@ == lossy_text(name@),
        valid_utf8(name@) ==> r@ == decode_utf8(name@),
{
    format!("{}", bstr::BStr::new(name))
}

/// What a user is told of a failure, where names read as given.
pub open spec fn failure_text(
    failure: FailureView,
    name: Seq<char>,
    tracking: Seq<char>,
) -> Seq<char> {
    match failure {
        FailureView::NoCommits => "Cannot merge an empty set of commits"@,
        FailureView::CyclicHistory { commit } => "The first parents of commit "@ + hex(
            commit.bytes@,
        ) + " lead back to it"@,
        FailureView::MissingConflictedTrees =>
            "conflicted commit is missing conflicted tree sides"@,
        FailureView::MissingConflictEntries => "conflicted commit is missing conflict entries"@,
        FailureView::AuthorMissing => "No author is configured in Git"@,
        FailureView::NoSteps => "Integration steps cannot be empty"@,
        FailureView::SquashTooSmall => "Squash step must have at least two commits"@,
        FailureView::EdgeNotFound =>
            "Selected edge endpoint wasn't found among direct neighbors"@,
        FailureView::EdgeOrderOverflow => "The order of a new edge is too large"@,
        FailureView::UnexpectedReply => "The graph editor gave an unexpected reply"@,
        FailureView::LocalBranchNotFound { name: _ } => "Couldn't find local branch '"@ + name
            + "'"@,
        FailureView::NoTrackingBranch { name: _ } => "Branch '"@ + name
            + "' has no tracking branch"@,
        FailureView::TrackingBranchNotFound { name: _, tracking: _ } =>
            "Couldn't find tracking branch '"@ + tracking + "' for local branch '"@ + name + "'"@,
        FailureView::NoMergeBase { name: _, tracking: _ } => "No merge-base found between '"@
            + name + "' and its tracking branch '"@ + tracking + "'"@,
    }
}

/// The names in a failure: that of the branch and that of the reference that it tracks.
pub open spec fn failure_names(failure: FailureView) -> (Seq<u8>, Seq<u8>) {
    match failure {
        FailureView::LocalBranchNotFound { name } => (name, Seq::empty()),
        FailureView::NoTrackingBranch { name } => (name, Seq::empty()),
        FailureView::TrackingBranchNotFound { name, tracking } => (name, tracking),
        FailureView::NoMergeBase { name, tracking } => (name, tracking),
        _ => (Seq::empty(), Seq::empty()),
    }
}

/// Three texts, one after the other.
fn join_texts(one: &str, two: &str, three: &str) -> (r: String)
    ensures
        r@ == one@ + two@ + three@,
{
    let mut text = one.to_owned();
    text.append(two);
    text.append(three);
    text
}

impl Failure {
    /// What a user is told of the failure, where names read as given.
    pub fn message_with_names(&self, name: &str, tracking: &str) -> (r: String)
        ensures
            r@ == failure_text(self@, name@, tracking@),
    {
        match self {
            Failure::NoCommits => "Cannot merge an empty set of commits".to_owned(),
            Failure::CyclicHistory { commit } => join_texts(
                "The first parents of commit ",
                commit.to_hex().as_str(),
                " lead back to it",
            ),
            Failure::MissingConflictedTrees =>
                "conflicted commit is missing conflicted tree sides".to_owned(),
            Failure::MissingConflictEntries =>
                "conflicted commit is missing conflict entries".to_owned(),
            Failure::AuthorMissing => "No author is configured in Git".to_owned(),
            Failure::NoSteps => "Integration steps cannot be empty".to_owned(),
            Failure::SquashTooSmall => "Squash step must have at least two commits".to_owned(),
            Failure::EdgeNotFound =>
                "Selected edge endpoint wasn't found among direct neighbors".to_owned(),
            Failure::EdgeOrderOverflow => "The order of a new edge is too large".to_owned(),
            Failure::UnexpectedReply => "The graph editor gave an unexpected reply".to_owned(),
            Failure::LocalBranchNotFound { name: _ } => join_texts(
                "Couldn't find local branch '",
                name,
                "'",
            ),
            Failure::NoTrackingBranch { name: _ } => join_texts(
                "Branch '",
                name,
                "' has no tracking branch",
            ),
            Failure::TrackingBranchNotFound { name: _, tracking: _ } => {
                let mut text = join_texts(
                    "Couldn't find tracking branch '",
                    tracking,
                    "' for local branch '",
                );
                text.append(name);
                text.append("'");
                text
            },
            Failure::NoMergeBase { name: _, tracking: _ } => {
                let mut text = join_texts(
                    "No merge-base found between '",
                    name,
                    "' and its tracking branch '",
                );
                text.append(tracking);
                text.append("'");
                text
            },
        }
    }

    /// What a user is told of the failure.
    pub fn message(&self) -> (r: String)
        ensures
            r@ == failure_text(
                self@,
                lossy_text(failure_names(self@).0),
                lossy_text(failure_names(self@).1),
            ),
            valid_utf8(failure_names(self@).0) && valid_utf8(failure_names(self@).1) ==> r@
                == failure_text(
                self@,
                decode_utf8(failure_names(self@).0),
                decode_utf8(failure_names(self@).1),
            ),
    {
        let none: [u8; 0] = [];
        assert(none@ =~= Seq::empty());
        let names: (&[u8], &[u8]) = match self {
            Failure::LocalBranchNotFound { name } => (name.as_slice(), none.as_slice()),
            Failure::NoTrackingBranch { name } => (name.as_slice(), none.as_slice()),
            Failure::TrackingBranchNotFound { name, tracking } => (
                name.as_slice(),
                tracking.as_slice(),
            ),
            Failure::NoMergeBase { name, tracking } => (name.as_slice(), tracking.as_slice()),
            _ => (none.as_slice(), none.as_slice()),
        };
        let name = display_name(names.0);
        let tracking = display_name(names.1);
        self.message_with_names(name.as_str(), tracking.as_str())
    }
}

/// Why an operation did not come to a result.
#[derive(Debug, PartialEq, Eq)]
pub enum Stop {
    /// The repository has to be asked first.
    Unknown(Query),
    /// The editor of the commit graph has to carry out a command first.
    Pending(Command),
    /// It failed for good.
    Failed(Failure),
}

/// A [`Stop`] with its lists as sequences.
pub enum StopView {
    Unknown(QueryView),
    Pending(CommandView),
    Failed(FailureView),
}

impl View for Stop {
    type V = StopView;

    open spec fn view(&self) -> StopView {
        match *self {
            Stop::Unknown(query) => StopView::Unknown(query@),
            Stop::Pending(command) => StopView::Pending(command@),
            Stop::Failed(failure) => StopView::Failed(failure@),
        }
    }
}

} // verus!

//! The steps of an integration, and how they are written down.
use crate::object_id::{hex, ObjectId};
use vstd::prelude::*;

verus! {

/// A step to follow when upstream changes are integrated into a local branch.
#[derive(Debug, PartialEq, Eq)]
pub enum InteractiveIntegrationStep {
    /// Leave a commit out, which takes it off the branch.
    Skip { commit_id: ObjectId },
    /// Keep a commit on the branch.
    Pick { commit_id: ObjectId },
    /// Bring an upstream commit into the branch.
    PickUpstream { commit_id: ObjectId },
    /// Make one commit of several.
    Squash {
        commits: Vec<ObjectId>,
        /// The message of the new commit, if it is not to be taken from the commits.
        message: Option<String>,
    },
}

/// An [`InteractiveIntegrationStep`] with its lists as sequences.
pub enum IntegrationStepView {
    Skip { commit_id: ObjectId },
    Pick { commit_id: ObjectId },
    PickUpstream { commit_id: ObjectId },
    Squash { commits: Seq<ObjectId>, message: Option<Seq<char>> },
}

impl View for InteractiveIntegrationStep {
    type V = IntegrationStepView;

    open spec fn view(&self) -> IntegrationStepView {
        match *self {
            InteractiveIntegrationStep::Skip { commit_id } =>
                IntegrationStepView::Skip { commit_id },
            InteractiveIntegrationStep::Pick { commit_id } =>
                IntegrationStepView::Pick { commit_id },
            InteractiveIntegrationStep::PickUpstream { commit_id } =>
                IntegrationStepView::PickUpstream { commit_id },
            InteractiveIntegrationStep::Squash { commits, message } =>
                IntegrationStepView::Squash {
                    commits: commits@,
                    message: match message {
                        Some(text) => Some(text@),
                        None => None,
                    },
                },
        }
    }
}

/// How the upstream changes of a branch are to be integrated.
#[derive(Debug, PartialEq, Eq)]
pub struct InteractiveIntegration {
    /// The steps to follow.
    pub steps: Vec<InteractiveIntegrationStep>,
    /// The merge base of the upstream and the local branch.
    pub merge_base: ObjectId,
}

/// What the steps of a list are.
pub open spec fn step_views(steps: Seq<InteractiveIntegrationStep>) -> Seq<IntegrationStepView> {
    steps.map_values(|step: InteractiveIntegrationStep| step@)
}

/// A text as `str`'s `Debug` writes it: in quotes, with special characters escaped.
pub uninterp spec fn quoted(text: Seq<char>) -> Seq<char>;

/// Calls `str`'s `Debug` through `format!`. What it returns is named; the rules by which it
/// escapes characters are not stated.
#[verifier::external_body]
fn quote(text: &str) -> (r: String)
    ensures
        r@ == quoted(text@),
{
    format!("{text:?}")
}

/// Ids in hexadecimal, each with a space before it.
pub open spec fn spaced_ids(ids: Seq<ObjectId>) -> Seq<char>
    decreases ids.len(),
{
    if ids.len() == 0 {
        Seq::empty()
    } else {
        spaced_ids(ids.drop_last()) + " "@ + hex(ids.last().bytes@)
    }
}

/// A step as a line of text.
pub open spec fn step_text(step: IntegrationStepView) -> Seq<char> {
    match step {
        IntegrationStepView::Skip { commit_id } => "skip "@ + hex(commit_id.bytes@),
        IntegrationStepView::Pick { commit_id } => "pick "@ + hex(commit_id.bytes@),
        IntegrationStepView::PickUpstream { commit_id } =>
            "pick-upstream "@ + hex(commit_id.bytes@),
        IntegrationStepView::Squash { commits, message } => squash_text(
            commits,
            match message {
                Some(text) => Some(quoted(text)),
                None => None,
            },
        ),
    }
}

/// A step that squashes commits as a line of text, where the message reads as given.
pub open spec fn squash_text(commits: Seq<ObjectId>, message: Option<Seq<char>>) -> Seq<char> {
    "squash"@ + spaced_ids(commits) + match message {
        Some(text) => " | message="@ + text,
        None => Seq::empty(),
    }
}

/// Steps as lines of text.
pub open spec fn steps_text(steps: Seq<IntegrationStepView>) -> Seq<char>
    decreases steps.len(),
{
    if steps.len() == 0 {
        Seq::empty()
    } else {
        steps_text(steps.drop_last()) + step_text(steps.last()) + "\n"@
    }
}

/// A step that squashes commits as a line of text, where the message reads as given.
pub fn squash_line(commits: &Vec<ObjectId>, message: Option<&str>) -> (r: String)
    ensures
        r@ == squash_text(
            commits@,
            match message {
                Some(text) => Some(text@),
                None => None,
            },
        ),
{
    let mut text = "squash".to_owned();
    let mut i: usize = 0;
    assert(commits@.take(0) =~= Seq::empty());
    assert(text@ + spaced_ids(Seq::empty()) =~= text@);
    while i < commits.len()
        invariant
            i <= commits.len(),
            text@ == "squash"@ + spaced_ids(commits@.take(i as int)),
        decreases commits.len() - i,
    {
        assert(commits@.take(i + 1).drop_last() =~= commits@.take(i as int));
        text.append(" ");
        text.append(commits[i].to_hex().as_str());
        i = i + 1;
        assert(text@ =~= "squash"@ + spaced_ids(commits@.take(i as int)));
    }
    assert(commits@.take(i as int) =~= commits@);
    let ghost line = text@;
    match message {
        Some(message) => {
            text.append(" | message=");
            text.append(message);
            assert(text@ =~= line + (" | message="@ + message@));
        },
        None => {
            assert(text@ =~= line + Seq::<char>::empty());
        },
    }
    text
}

impl InteractiveIntegrationStep {
    /// The step as a line of text.
    pub fn to_string(&self) -> (r: String)
        ensures
            r@ == step_text(self@),
    {
        match self {
            InteractiveIntegrationStep::Skip { commit_id } => {
                let mut text = "skip ".to_owned();
                text.append(commit_id.to_hex().as_str());
                text
            },
            InteractiveIntegrationStep::Pick { commit_id } => {
                let mut text = "pick ".to_owned();
                text.append(commit_id.to_hex().as_str());
                text
            },
            InteractiveIntegrationStep::PickUpstream { commit_id } => {
                let mut text = "pick-upstream ".to_owned();
                text.append(commit_id.to_hex().as_str());
                text
            },
            InteractiveIntegrationStep::Squash { commits, message } => match message {
                Some(message) => squash_line(commits, Some(quote(message.as_str()).as_str())),
                None => squash_line(commits, None),
            },
        }
    }
}

impl InteractiveIntegration {
    /// The integration as text: a line for the merge base and one for each step.
    pub fn to_string(&self) -> (r: String)
        ensures
            r@ == "merge-base "@ + hex(self.merge_base.bytes@) + "\n"@ + steps_text(
                step_views(self.steps@),
            ),
    {
        let mut text = "merge-base ".to_owned();
        text.append(self.merge_base.to_hex().as_str());
        text.append("\n");
        let ghost head = text@;
        let ghost views = step_views(self.steps@);
        let mut i: usize = 0;
        assert(views.take(0) =~= Seq::empty());
        assert(head + steps_text(Seq::empty()) =~= head);
        while i < self.steps.len()
            invariant
                i <= self.steps.len(),
                views == step_views(self.steps@),
                text@ == head + steps_text(views.take(i as int)),
            decreases self.steps.len() - i,
        {
            assert(views.take(i + 1).drop_last() =~= views.take(i as int));
            text.append(self.steps[i].to_string().as_str());
            text.append("\n");
            i = i + 1;
            assert(text@ =~= head + steps_text(views.take(i as int)));
        }
        assert(views.take(i as int) =~= views);
        text
    }
}

} // verus!

//! Building the segment of the commit graph that integrates upstream changes.
use crate::integration::edges::{
    connect_segment_to_edges, find_edge_to, first_edge_to, run_connect, run_selected_edges,
    selected_edges_from_set, EdgeSelection,
};
use crate::integration::editor::{
    agrees, agrees_in_view, done_reply, edges_reply, maybe_node_reply, neighbours_reply,
    node_reply, step_reply, CommandView, Editor, Reply, Run, Segment, Selector, SelectorSet,
    SelectorSetView, Step,
};
use crate::integration::squash::{run_squash, squash_step_for_editor};
use crate::integration::steps::{
    step_views, IntegrationStepView, InteractiveIntegration, InteractiveIntegrationStep,
};
use crate::object_id::ObjectId;
use crate::repository::Repository;
use crate::stop::{Failure, FailureView, Stop, StopView};
use vstd::prelude::*;

verus! {

/// A segment of one node.
pub open spec fn lone(node: Selector) -> Segment {
    Segment { child: node, parent: node }
}

/// Cuts a node off from all its parents.
pub open spec fn run_detach(replies: Seq<Reply>, at: nat, node: Selector) -> Run<()> {
    done_reply(
        replies,
        at,
        CommandView::DisconnectSegment {
            segment: lone(node),
            children: SelectorSetView::Nothing,
            parents: SelectorSetView::All,
        },
    )
}

/// The step that picks a commit. A commit that the graph has is cut off from all its children
/// and from the parents that go with it, and its own step is used.
pub open spec fn run_pick(replies: Seq<Reply>, at: nat, commit: ObjectId) -> Run<Step> {
    match maybe_node_reply(replies, at, CommandView::TrySelectCommit { id: commit }) {
        Run::Stopped(stop) => Run::Stopped(stop),
        Run::Done { value: None, next } => Run::Done { value: Step::NewPick { id: commit }, next },
        Run::Done { value: Some(existing), next } => match neighbours_reply(
            replies,
            next,
            CommandView::DetermineParents { of: existing },
        ) {
            Run::Stopped(stop) => Run::Stopped(stop),
            Run::Done { value: parents, next } => match done_reply(
                replies,
                next,
                CommandView::DisconnectSegment {
                    segment: lone(existing),
                    children: SelectorSetView::All,
                    parents,
                },
            ) {
                Run::Stopped(stop) => Run::Stopped(stop),
                Run::Done { value: _, next } => step_reply(
                    replies,
                    next,
                    CommandView::LookupStep { of: existing },
                ),
            },
        },
    }
}

/// Takes a commit off the branch: if the graph has it, it is cut off from all its parents.
pub open spec fn run_skip(replies: Seq<Reply>, at: nat, commit: ObjectId) -> Run<()> {
    match maybe_node_reply(replies, at, CommandView::TrySelectCommit { id: commit }) {
        Run::Stopped(stop) => Run::Stopped(stop),
        Run::Done { value: None, next } => Run::Done { value: (), next },
        Run::Done { value: Some(existing), next } => run_detach(replies, next, existing),
    }
}

/// What a step of an integration puts into the segment.
pub open spec fn run_step(
    repo: &Repository,
    replies: Seq<Reply>,
    at: nat,
    step: IntegrationStepView,
) -> Run<Option<Step>> {
    match step {
        IntegrationStepView::Skip { commit_id } => match run_skip(replies, at, commit_id) {
            Run::Stopped(stop) => Run::Stopped(stop),
            Run::Done { value: _, next } => Run::Done { value: None, next },
        },
        IntegrationStepView::Pick { commit_id } => some_step(run_pick(replies, at, commit_id)),
        IntegrationStepView::PickUpstream { commit_id } => some_step(
            run_pick(replies, at, commit_id),
        ),
        IntegrationStepView::Squash { commits, message } => some_step(
            run_squash(repo, replies, at, commits, message),
        ),
    }
}

/// A step that there is.
pub open spec fn some_step(run: Run<Step>) -> Run<Option<Step>> {
    match run {
        Run::Stopped(stop) => Run::Stopped(stop),
        Run::Done { value, next } => Run::Done { value: Some(value), next },
    }
}

/// What the steps of an integration put into the segment, from the last of them to the first,
/// after what is there.
pub open spec fn run_steps(
    repo: &Repository,
    replies: Seq<Reply>,
    at: nat,
    steps: Seq<IntegrationStepView>,
    segment: Seq<Step>,
) -> Run<Seq<Step>>
    decreases steps.len(),
{
    if steps.len() == 0 {
        Run::Done { value: segment, next: at }
    } else {
        match run_step(repo, replies, at, steps.last()) {
            Run::Stopped(stop) => Run::Stopped(stop),
            Run::Done { value: None, next } => run_steps(
                repo,
                replies,
                next,
                steps.drop_last(),
                segment,
            ),
            Run::Done { value: Some(step), next } => run_steps(
                repo,
                replies,
                next,
                steps.drop_last(),
                segment.push(step),
            ),
        }
    }
}

/// The parent of a node that a step picks already.
pub open spec fn run_connected_parent(
    replies: Seq<Reply>,
    at: nat,
    child: Selector,
    step: Step,
) -> Run<Option<Selector>> {
    match step.spec_pick() {
        None => Run::Done { value: None, next: at },
        Some(id) => match maybe_node_reply(replies, at, CommandView::TrySelectCommit { id }) {
            Run::Stopped(stop) => Run::Stopped(stop),
            Run::Done { value: None, next } => Run::Done { value: None, next },
            Run::Done { value: Some(existing), next } => match edges_reply(
                replies,
                next,
                CommandView::DirectParents { of: child },
            ) {
                Run::Stopped(stop) => Run::Stopped(stop),
                Run::Done { value: edges, next } => Run::Done {
                    value: if first_edge_to(edges, existing) is Some {
                        Some(existing)
                    } else {
                        None
                    },
                    next,
                },
            },
        },
    }
}

/// Puts a step below a node, unless it is there already.
pub open spec fn run_append(replies: Seq<Reply>, at: nat, child: Selector, step: Step) -> Run<
    Selector,
> {
    match run_connected_parent(replies, at, child, step) {
        Run::Stopped(stop) => Run::Stopped(stop),
        Run::Done { value: Some(parent), next } => Run::Done { value: parent, next },
        Run::Done { value: None, next } => node_reply(
            replies,
            next,
            CommandView::InsertBelow { target: child, step },
        ),
    }
}

/// Puts steps below a node, one below the other, and comes to the lowest node.
pub open spec fn run_chain(replies: Seq<Reply>, at: nat, child: Selector, steps: Seq<Step>) -> Run<
    Selector,
>
    decreases steps.len(),
{
    if steps.len() == 0 {
        Run::Done { value: child, next: at }
    } else {
        match run_append(replies, at, child, steps.first()) {
            Run::Stopped(stop) => Run::Stopped(stop),
            Run::Done { value: parent, next } => run_chain(
                replies,
                next,
                parent,
                steps.drop_first(),
            ),
        }
    }
}

/// Puts the commit of the merge base below a node.
pub open spec fn run_append_base(
    replies: Seq<Reply>,
    at: nat,
    child: Selector,
    merge_base: ObjectId,
) -> Run<Selector> {
    match node_reply(replies, at, CommandView::SelectCommit { id: merge_base }) {
        Run::Stopped(stop) => Run::Stopped(stop),
        Run::Done { value: base, next } => match step_reply(
            replies,
            next,
            CommandView::LookupStep { of: base },
        ) {
            Run::Stopped(stop) => Run::Stopped(stop),
            Run::Done { value: step, next } => run_append(replies, next, child, step),
        },
    }
}

/// The segment from the node of a branch down to the merge base, with the steps of an
/// integration between them.
pub open spec fn run_segment(
    repo: &Repository,
    replies: Seq<Reply>,
    at: nat,
    name: Seq<u8>,
    merge_base: ObjectId,
    steps: Seq<IntegrationStepView>,
) -> Run<Segment> {
    match run_steps(repo, replies, at, steps, seq![Step::Reference]) {
        Run::Stopped(stop) => Run::Stopped(stop),
        Run::Done { value: segment_steps, next } => match node_reply(
            replies,
            next,
            CommandView::SelectReference { name },
        ) {
            Run::Stopped(stop) => Run::Stopped(stop),
            Run::Done { value: child, next } => match run_detach(replies, next, child) {
                Run::Stopped(stop) => Run::Stopped(stop),
                Run::Done { value: _, next } => match run_chain(
                    replies,
                    next,
                    child,
                    segment_steps.skip(1),
                ) {
                    Run::Stopped(stop) => Run::Stopped(stop),
                    Run::Done { value: lowest, next } => match run_append_base(
                        replies,
                        next,
                        lowest,
                        merge_base,
                    ) {
                        Run::Stopped(stop) => Run::Stopped(stop),
                        Run::Done { value: parent, next } => Run::Done {
                            value: Segment { child, parent },
                            next,
                        },
                    },
                },
            },
        },
    }
}

/// Replaces what lies between a branch and the merge base by the steps of an integration.
pub open spec fn run_replace(
    repo: &Repository,
    replies: Seq<Reply>,
    at: nat,
    name: Seq<u8>,
    merge_base: ObjectId,
    steps: Seq<IntegrationStepView>,
    present: Segment,
    parents: SelectorSetView,
) -> Run<()> {
    match run_selected_edges(
        replies,
        at,
        present.child,
        SelectorSetView::All,
        EdgeSelection::Children,
    ) {
        Run::Stopped(stop) => Run::Stopped(stop),
        Run::Done { value: child_edges, next } => match run_selected_edges(
            replies,
            next,
            present.parent,
            parents,
            EdgeSelection::Parents,
        ) {
            Run::Stopped(stop) => Run::Stopped(stop),
            Run::Done { value: parent_edges, next } => match done_reply(
                replies,
                next,
                CommandView::DisconnectSegment {
                    segment: present,
                    children: SelectorSetView::All,
                    parents,
                },
            ) {
                Run::Stopped(stop) => Run::Stopped(stop),
                Run::Done { value: _, next } => match run_segment(
                    repo,
                    replies,
                    next,
                    name,
                    merge_base,
                    steps,
                ) {
                    Run::Stopped(stop) => Run::Stopped(stop),
                    Run::Done { value: segment, next } => run_connect(
                        replies,
                        next,
                        segment,
                        child_edges,
                        parent_edges,
                    ),
                },
            },
        },
    }
}

/// Integrates upstream changes into a branch.
pub open spec fn run_integration(
    repo: &Repository,
    replies: Seq<Reply>,
    at: nat,
    name: Seq<u8>,
    merge_base: ObjectId,
    steps: Seq<IntegrationStepView>,
) -> Run<()> {
    if steps.len() == 0 {
        Run::Stopped(StopView::Failed(FailureView::NoSteps))
    } else {
        match node_reply(replies, at, CommandView::SelectReference { name }) {
            Run::Stopped(stop) => Run::Stopped(stop),
            Run::Done { value: child, next } => match node_reply(
                replies,
                next,
                CommandView::SelectCommit { id: merge_base },
            ) {
                Run::Stopped(stop) => Run::Stopped(stop),
                Run::Done { value: parent, next } => match neighbours_reply(
                    replies,
                    next,
                    CommandView::DetermineParents { of: parent },
                ) {
                    Run::Stopped(stop) => Run::Stopped(stop),
                    Run::Done { value: parents, next } => match run_replace(
                        repo,
                        replies,
                        next,
                        name,
                        merge_base,
                        steps,
                        Segment { child, parent },
                        parents,
                    ) {
                        Run::Stopped(stop) => Run::Stopped(stop),
                        Run::Done { value: _, next } => done_reply(
                            replies,
                            next,
                            CommandView::Rebase,
                        ),
                    },
                },
            },
        }
    }
}

/// Cuts a node off from all its parents, without joining these to anything.
///
/// So the nodes of a reference and of skipped commits are set apart before the segment is built.
pub fn disconnect_selector_from_all_parents(editor: &mut Editor, selector: Selector) -> (r: Result<
    (),
    Stop,
>)
    ensures
        agrees(
            run_detach(old(editor).replies@, old(editor).next as nat, selector),
            *old(editor),
            *final(editor),
            r,
        ),
{
    editor.disconnect_segment_from(
        Segment { child: selector, parent: selector },
        SelectorSet::Nothing,
        SelectorSet::All,
    )
}

/// The step that picks a commit, which is that of its node if the graph has one.
///
/// The node is first cut off, so that it can stand elsewhere in the segment.
pub fn existing_or_new_pick_step(editor: &mut Editor, commit_id: ObjectId) -> (r: Result<
    Step,
    Stop,
>)
    ensures
        agrees(
            run_pick(old(editor).replies@, old(editor).next as nat, commit_id),
            *old(editor),
            *final(editor),
            r,
        ),
{
    match editor.try_select_commit(commit_id)? {
        Some(existing) => {
            let parents_to_disconnect = editor.determine_parent_selector(existing)?;
            editor.disconnect_segment_from(
                Segment { child: existing, parent: existing },
                SelectorSet::All,
                parents_to_disconnect,
            )?;
            editor.lookup_step(existing)
        },
        None => Ok(Step::NewPick { id: commit_id }),
    }
}

/// Takes a commit off the branch.
fn detach_skipped_commit(editor: &mut Editor, commit_id: ObjectId) -> (r: Result<(), Stop>)
    ensures
        agrees(
            run_skip(old(editor).replies@, old(editor).next as nat, commit_id),
            *old(editor),
            *final(editor),
            r,
        ),
{
    match editor.try_select_commit(commit_id)? {
        Some(existing) => disconnect_selector_from_all_parents(editor, existing),
        None => Ok(()),
    }
}

/// Tells what a step of an integration puts into the segment.
fn segment_step(
    repo: &Repository,
    editor: &mut Editor,
    step: &InteractiveIntegrationStep,
) -> (r: Result<Option<Step>, Stop>)
    ensures
        agrees(
            run_step(repo, old(editor).replies@, old(editor).next as nat, step@),
            *old(editor),
            *final(editor),
            r,
        ),
{
    match step {
        InteractiveIntegrationStep::Skip { commit_id } => {
            detach_skipped_commit(editor, *commit_id)?;
            Ok(None)
        },
        InteractiveIntegrationStep::Pick { commit_id } => {
            let pick = existing_or_new_pick_step(editor, *commit_id)?;
            Ok(Some(pick))
        },
        InteractiveIntegrationStep::PickUpstream { commit_id } => {
            let pick = existing_or_new_pick_step(editor, *commit_id)?;
            Ok(Some(pick))
        },
        InteractiveIntegrationStep::Squash { commits, message } => {
            let message = match message {
                Some(text) => Some(text.as_str()),
                None => None,
            };
            let squash = squash_step_for_editor(repo, editor, commits.as_slice(), message)?;
            Ok(Some(squash))
        },
    }
}

/// Turns the steps of an integration into those of the segment, from the child at its top, the
/// reference, to the parent at its bottom.
///
/// Skipped commits are cut off from their parents and get no step.
pub fn integration_steps_to_segment_steps_for_editor(
    repo: &Repository,
    editor: &mut Editor,
    steps: &Vec<InteractiveIntegrationStep>,
) -> (r: Result<Vec<Step>, Stop>)
    ensures
        agrees_in_view(
            run_steps(
                repo,
                old(editor).replies@,
                old(editor).next as nat,
                step_views(steps@),
                seq![Step::Reference],
            ),
            *old(editor),
            *final(editor),
            r,
        ),
{
    let mut out: Vec<Step> = Vec::with_capacity(1);
    out.push(Step::Reference);
    assert(out@ =~= seq![Step::Reference]);
    let ghost views = step_views(steps@);
    let mut left: usize = steps.len();
    assert(views.take(left as int) =~= views);
    while left > 0
        invariant
            left <= steps.len(),
            views == step_views(steps@),
            editor.replies@ == old(editor).replies@,
            run_steps(
                repo,
                old(editor).replies@,
                old(editor).next as nat,
                views,
                seq![Step::Reference],
            ) == run_steps(
                repo,
                editor.replies@,
                editor.next as nat,
                views.take(left as int),
                out@,
            ),
        decreases left,
    {
        assert(views.take(left as int).last() == steps@[left - 1]@);
        assert(views.take(left as int).drop_last() =~= views.take(left - 1));
        left = left - 1;
        match segment_step(repo, editor, &steps[left])? {
            Some(step) => out.push(step),
            None => {},
        }
    }
    Ok(out)
}

/// Finds the parent of a node that a step picks already.
pub fn already_connected_parent_for_step(
    editor: &mut Editor,
    child: Selector,
    step: &Step,
) -> (r: Result<Option<Selector>, Stop>)
    ensures
        agrees(
            run_connected_parent(old(editor).replies@, old(editor).next as nat, child, *step),
            *old(editor),
            *final(editor),
            r,
        ),
{
    let id = match step.pick() {
        Some(id) => id,
        None => return Ok(None),
    };
    match editor.try_select_commit(id)? {
        Some(existing_pick) => {
            let direct_parents = editor.direct_parents(child)?;
            match find_edge_to(&direct_parents, existing_pick) {
                Some(_) => Ok(Some(existing_pick)),
                None => Ok(None),
            }
        },
        None => Ok(None),
    }
}

/// Puts a step below a node, unless it is there already.
fn append_step(editor: &mut Editor, child: Selector, step: Step) -> (r: Result<Selector, Stop>)
    ensures
        agrees(
            run_append(old(editor).replies@, old(editor).next as nat, child, step),
            *old(editor),
            *final(editor),
            r,
        ),
{
    match already_connected_parent_for_step(editor, child, &step)? {
        Some(existing_parent) => Ok(existing_parent),
        None => editor.insert_below(child, step),
    }
}

/// Puts all steps but the first below a node, one below the other.
fn append_steps(editor: &mut Editor, child: Selector, segment_steps: &Vec<Step>) -> (r: Result<
    Selector,
    Stop,
>)
    requires
        segment_steps@.len() > 0,
    ensures
        agrees(
            run_chain(
                old(editor).replies@,
                old(editor).next as nat,
                child,
                segment_steps@.skip(1),
            ),
            *old(editor),
            *final(editor),
            r,
        ),
{
    let mut parent_most = child;
    let mut i: usize = 1;
    while i < segment_steps.len()
        invariant
            1 <= i <= segment_steps.len(),
            editor.replies@ == old(editor).replies@,
            run_chain(
                old(editor).replies@,
                old(editor).next as nat,
                child,
                segment_steps@.skip(1),
            ) == run_chain(
                editor.replies@,
                editor.next as nat,
                parent_most,
                segment_steps@.skip(i as int),
            ),
        decreases segment_steps.len() - i,
    {
        assert(segment_steps@.skip(i as int).first() == segment_steps@[i as int]);
        assert(segment_steps@.skip(i as int).drop_first() =~= segment_steps@.skip(i + 1));
        parent_most = append_step(editor, parent_most, segment_steps[i])?;
        i = i + 1;
    }
    Ok(parent_most)
}

/// What the steps put into the segment stands after what was there.
proof fn lemma_segment_grows(
    repo: &Repository,
    replies: Seq<Reply>,
    at: nat,
    steps: Seq<IntegrationStepView>,
    segment: Seq<Step>,
)
    ensures
        run_steps(repo, replies, at, steps, segment) matches Run::Done { value, next: _ }
            ==> segment.len() <= value.len() && value.take(segment.len() as int) == segment,
    decreases steps.len(),
{
    if steps.len() == 0 {
        assert(segment.take(segment.len() as int) =~= segment);
    } else {
        match run_step(repo, replies, at, steps.last()) {
            Run::Stopped(_) => {},
            Run::Done { value: None, next } => {
                lemma_segment_grows(repo, replies, next, steps.drop_last(), segment);
            },
            Run::Done { value: Some(step), next } => {
                lemma_segment_grows(repo, replies, next, steps.drop_last(), segment.push(step));
                let run = run_steps(repo, replies, next, steps.drop_last(), segment.push(step));
                if let Run::Done { value, next: _ } = run {
                    assert(segment =~= segment.push(step).take(segment.len() as int));
                    assert(value.take(segment.len() as int) =~= value.take(
                        segment.len() as int + 1,
                    ).take(segment.len() as int));
                }
            },
        }
    }
}

/// Builds the segment from the node of a branch down to the merge base, and returns its ends.
pub fn integration_steps_into_segment_nodes(
    repo: &Repository,
    editor: &mut Editor,
    ref_name: &[u8],
    merge_base: ObjectId,
    steps: &Vec<InteractiveIntegrationStep>,
) -> (r: Result<Segment, Stop>)
    ensures
        agrees(
            run_segment(
                repo,
                old(editor).replies@,
                old(editor).next as nat,
                ref_name@,
                merge_base,
                step_views(steps@),
            ),
            *old(editor),
            *final(editor),
            r,
        ),
{
    proof {
        lemma_segment_grows(
            repo,
            editor.replies@,
            editor.next as nat,
            step_views(steps@),
            seq![Step::Reference],
        );
    }
    let segment_steps = integration_steps_to_segment_steps_for_editor(repo, editor, steps)?;
    let child_most = editor.select_reference(ref_name)?;
    disconnect_selector_from_all_parents(editor, child_most)?;
    let lowest = append_steps(editor, child_most, &segment_steps)?;
    let merge_base_selector = editor.select_commit(merge_base)?;
    let merge_base_step = editor.lookup_step(merge_base_selector)?;
    let parent_most = append_step(editor, lowest, merge_base_step)?;
    Ok(Segment { child: child_most, parent: parent_most })
}

/// Integrates upstream changes into a branch.
///
/// The steps are in the order in which they apply, from parent to child. The segment between the
/// branch and the merge base is cut out of the graph, built anew from the steps, joined to the
/// neighbours that it had, and rebased.
pub fn integrate_branch_with_steps(
    repo: &Repository,
    editor: &mut Editor,
    ref_name: &[u8],
    integration: &InteractiveIntegration,
) -> (r: Result<(), Stop>)
    ensures
        agrees(
            run_integration(
                repo,
                old(editor).replies@,
                old(editor).next as nat,
                ref_name@,
                integration.merge_base,
                step_views(integration.steps@),
            ),
            *old(editor),
            *final(editor),
            r,
        ),
{
    if integration.steps.len() == 0 {
        return Err(Stop::Failed(Failure::NoSteps));
    }
    let delimiter_child = editor.select_reference(ref_name)?;
    let delimiter_parent = editor.select_commit(integration.merge_base)?;
    let segment_delimiter = Segment { child: delimiter_child, parent: delimiter_parent };
    let children_to_disconnect = SelectorSet::All;
    let parents_to_disconnect = editor.determine_parent_selector(delimiter_parent)?;
    let children_to_reconnect = selected_edges_from_set(
        editor,
        segment_delimiter.child,
        &children_to_disconnect,
        EdgeSelection::Children,
    )?;
    let parents_to_reconnect = selected_edges_from_set(
        editor,
        segment_delimiter.parent,
        &parents_to_disconnect,
        EdgeSelection::Parents,
    )?;
    editor.disconnect_segment_from(
        segment_delimiter,
        children_to_disconnect,
        parents_to_disconnect,
    )?;
    let new_segment_delimiter = integration_steps_into_segment_nodes(
        repo,
        editor,
        ref_name,
        integration.merge_base,
        &integration.steps,
    )?;
    connect_segment_to_edges(
        editor,
        new_segment_delimiter,
        &children_to_reconnect,
        &parents_to_reconnect,
    )?;
    editor.rebase()
}

} // verus!

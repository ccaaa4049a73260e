//! Which command follows which replies of the graph editor, operation by operation.
use crate::integration::edges::{
    first_edge_to, max_order, run_connect, run_connect_side, run_join_all, run_selected_edges,
    run_selection, EdgeSelection,
};
use crate::integration::editor::{
    commit_reply, done_reply, edges_reply, maybe_node_reply, message_reply, neighbours_reply,
    node_reply, nodes_reply, step_reply, CommandView, Edge, Reply, Run, Segment, Selector,
    SelectorSetView, Step,
};
use crate::integration::segment::{
    run_append, run_append_base, run_chain, run_connected_parent, run_detach, run_integration,
    run_pick, run_replace, run_segment, run_step, run_steps,
};
use crate::integration::steps::IntegrationStepView;
use crate::object_id::ObjectId;
use crate::repository::Repository;
use crate::stop::{FailureView, StopView};
use vstd::prelude::*;

verus! {

/// Whether a run waits for a command to be carried out.
pub open spec fn awaits<T>(run: Run<T>, command: CommandView) -> bool {
    run == Run::<T>::Stopped(StopView::Pending(command))
}

/// Whether a run comes to a value after so many replies.
pub open spec fn comes_to<T>(run: Run<T>, value: T, next: nat) -> bool {
    run == (Run::Done { value, next })
}

/// Whether a run fails.
pub open spec fn fails<T>(run: Run<T>, failure: FailureView) -> bool {
    run == Run::<T>::Stopped(StopView::Failed(failure))
}

/// A command is awaited until there is a reply to it. A reply that fits is used, and no other
/// reply with it; one that does not fit is refused.
pub proof fn law_reply_is_awaited_and_used(replies: Seq<Reply>, at: nat, command: CommandView)
    ensures
        at >= replies.len() ==> {
            &&& awaits(node_reply(replies, at, command), command)
            &&& awaits(maybe_node_reply(replies, at, command), command)
            &&& awaits(neighbours_reply(replies, at, command), command)
            &&& awaits(edges_reply(replies, at, command), command)
            &&& awaits(nodes_reply(replies, at, command), command)
            &&& awaits(step_reply(replies, at, command), command)
            &&& awaits(commit_reply(replies, at, command), command)
            &&& awaits(message_reply(replies, at, command), command)
            &&& awaits(done_reply(replies, at, command), command)
        },
        at < replies.len() ==> {
            let given = replies[at as int];
            let refused = FailureView::UnexpectedReply;
            &&& match given {
                Reply::Node(node) => comes_to(node_reply(replies, at, command), node, at + 1),
                _ => fails(node_reply(replies, at, command), refused),
            }
            &&& match given {
                Reply::MaybeNode(node) => comes_to(
                    maybe_node_reply(replies, at, command),
                    node,
                    at + 1,
                ),
                _ => fails(maybe_node_reply(replies, at, command), refused),
            }
            &&& match given {
                Reply::Neighbours(set) => comes_to(
                    neighbours_reply(replies, at, command),
                    set@,
                    at + 1,
                ),
                _ => fails(neighbours_reply(replies, at, command), refused),
            }
            &&& match given {
                Reply::Edges(edges) => comes_to(edges_reply(replies, at, command), edges@, at + 1),
                _ => fails(edges_reply(replies, at, command), refused),
            }
            &&& match given {
                Reply::Nodes(nodes) => comes_to(nodes_reply(replies, at, command), nodes@, at + 1),
                _ => fails(nodes_reply(replies, at, command), refused),
            }
            &&& match given {
                Reply::Step(step) => comes_to(step_reply(replies, at, command), step, at + 1),
                _ => fails(step_reply(replies, at, command), refused),
            }
            &&& match given {
                Reply::Commit(id) => comes_to(commit_reply(replies, at, command), id, at + 1),
                _ => fails(commit_reply(replies, at, command), refused),
            }
            &&& match given {
                Reply::Message(message) => comes_to(
                    message_reply(replies, at, command),
                    message@,
                    at + 1,
                ),
                _ => fails(message_reply(replies, at, command), refused),
            }
            &&& match given {
                Reply::Done => comes_to(done_reply(replies, at, command), (), at + 1),
                _ => fails(done_reply(replies, at, command), refused),
            }
        },
{
}

/// The command that cuts a single node off from neighbours.
pub open spec fn cut_off(
    node: Selector,
    children: SelectorSetView,
    parents: SelectorSetView,
) -> CommandView {
    CommandView::DisconnectSegment {
        segment: Segment { child: node, parent: node },
        children,
        parents,
    }
}

/// A picked commit is looked for in the graph. If it is not there it is picked anew. If it is, it
/// is cut off from all its children and from those parents that the editor names, and goes on as
/// the step that its node has.
pub proof fn law_picked_commit_is_cut_loose(replies: Seq<Reply>, at: nat, commit: ObjectId)
    ensures
        at >= replies.len() ==> awaits(
            run_pick(replies, at, commit),
            CommandView::TrySelectCommit { id: commit },
        ),
        at < replies.len() && !(replies[at as int] is MaybeNode) ==> fails(
            run_pick(replies, at, commit),
            FailureView::UnexpectedReply,
        ),
        at < replies.len() && replies[at as int] == Reply::MaybeNode(None) ==> comes_to(
            run_pick(replies, at, commit),
            Step::NewPick { id: commit },
            at + 1,
        ),
        at < replies.len() ==> (replies[at as int] matches Reply::MaybeNode(Some(node)) ==> {
            &&& at + 1 >= replies.len() ==> awaits(
                run_pick(replies, at, commit),
                CommandView::DetermineParents { of: node },
            )
            &&& at + 1 < replies.len() && !(replies[at as int + 1] is Neighbours) ==> fails(
                run_pick(replies, at, commit),
                FailureView::UnexpectedReply,
            )
            &&& at + 1 < replies.len() ==> (replies[at as int + 1] matches Reply::Neighbours(
                parents,
            ) ==> {
                &&& at + 2 >= replies.len() ==> awaits(
                    run_pick(replies, at, commit),
                    cut_off(node, SelectorSetView::All, parents@),
                )
                &&& at + 2 < replies.len() && !(replies[at as int + 2] is Done) ==> fails(
                    run_pick(replies, at, commit),
                    FailureView::UnexpectedReply,
                )
                &&& at + 2 < replies.len() && replies[at as int + 2] == Reply::Done ==> {
                    &&& at + 3 >= replies.len() ==> awaits(
                        run_pick(replies, at, commit),
                        CommandView::LookupStep { of: node },
                    )
                    &&& at + 3 < replies.len() ==> match replies[at as int + 3] {
                        Reply::Step(step) => comes_to(
                            run_pick(replies, at, commit),
                            step,
                            at + 4,
                        ),
                        _ => fails(run_pick(replies, at, commit), FailureView::UnexpectedReply),
                    }
                }
            })
        }),
{
}

/// A skipped commit is looked for in the graph, and is cut off from all its parents, and from
/// nothing else, if it is there. It puts no step into the segment.
pub proof fn law_skipped_commit_is_cut_from_its_parents(
    repo: &Repository,
    replies: Seq<Reply>,
    at: nat,
    commit_id: ObjectId,
)
    ensures
        ({
            let run = run_step(repo, replies, at, IntegrationStepView::Skip { commit_id });
            &&& at >= replies.len() ==> awaits(run, CommandView::TrySelectCommit { id: commit_id })
            &&& at < replies.len() && !(replies[at as int] is MaybeNode) ==> fails(
                run,
                FailureView::UnexpectedReply,
            )
            &&& at < replies.len() && replies[at as int] == Reply::MaybeNode(None) ==> comes_to(
                run,
                None,
                at + 1,
            )
            &&& at < replies.len() ==> (replies[at as int] matches Reply::MaybeNode(Some(node))
                ==> {
                &&& at + 1 >= replies.len() ==> awaits(
                    run,
                    cut_off(node, SelectorSetView::Nothing, SelectorSetView::All),
                )
                &&& at + 1 < replies.len() ==> match replies[at as int + 1] {
                    Reply::Done => comes_to(run, None, at + 2),
                    _ => fails(run, FailureView::UnexpectedReply),
                }
            })
        }),
{
}

/// Keeping a local commit and bringing an upstream commit in both pick the commit that is named,
/// and both put what is picked into the segment.
pub proof fn law_kept_and_upstream_commits_are_picked_alike(
    repo: &Repository,
    replies: Seq<Reply>,
    at: nat,
    commit_id: ObjectId,
)
    ensures
        run_step(repo, replies, at, IntegrationStepView::Pick { commit_id }) == run_step(
            repo,
            replies,
            at,
            IntegrationStepView::PickUpstream { commit_id },
        ),
        match run_pick(replies, at, commit_id) {
            Run::Done { value, next } => comes_to(
                run_step(repo, replies, at, IntegrationStepView::Pick { commit_id }),
                Some(value),
                next,
            ),
            Run::Stopped(stop) => run_step(
                repo,
                replies,
                at,
                IntegrationStepView::Pick { commit_id },
            ) == Run::<Option<Step>>::Stopped(stop),
        },
{
}

/// The commit that a step of the graph picks.
pub open spec fn commit_of(step: Step) -> Option<ObjectId> {
    match step {
        Step::Reference => None,
        Step::NewPick { id } => Some(id),
        Step::Known { handle: _, pick } => pick,
    }
}

/// A step that picks no commit is inserted below its child. One that picks a commit is first
/// looked for: if its node is a parent of the child already it stays there, and otherwise it is
/// inserted.
pub proof fn law_step_is_appended_unless_it_is_there(
    replies: Seq<Reply>,
    at: nat,
    child: Selector,
    step: Step,
)
    ensures
        ({
            let run = run_append(replies, at, child, step);
            match commit_of(step) {
                None => inserts(run, replies, at, child, step),
                Some(id) => {
                    &&& at >= replies.len() ==> awaits(run, CommandView::TrySelectCommit { id })
                    &&& at < replies.len() && !(replies[at as int] is MaybeNode) ==> fails(
                        run,
                        FailureView::UnexpectedReply,
                    )
                    &&& at < replies.len() && replies[at as int] == Reply::MaybeNode(None)
                        ==> inserts(run, replies, at + 1, child, step)
                    &&& at < replies.len() ==> (replies[at as int] matches Reply::MaybeNode(
                        Some(node),
                    ) ==> {
                        &&& at + 1 >= replies.len() ==> awaits(
                            run,
                            CommandView::DirectParents { of: child },
                        )
                        &&& at + 1 < replies.len() ==> match replies[at as int + 1] {
                            Reply::Edges(edges) => if leads_to_node(edges@, node) {
                                comes_to(run, node, at + 2)
                            } else {
                                inserts(run, replies, at + 2, child, step)
                            },
                            _ => fails(run, FailureView::UnexpectedReply),
                        }
                    })
                },
            }
        }),
{
    if at + 1 < replies.len() {
        if let Reply::MaybeNode(Some(node)) = replies[at as int] {
            if let Reply::Edges(edges) = replies[at as int + 1] {
                law_first_edge_is_found(edges@, node);
            }
        }
    }
}

/// A step is connected to a child already exactly if it picks a commit whose node is a parent of
/// the child, and that node is what is found.
pub proof fn law_connected_parent_is_a_parent(
    replies: Seq<Reply>,
    at: nat,
    child: Selector,
    step: Step,
)
    ensures
        ({
            let run = run_connected_parent(replies, at, child, step);
            match commit_of(step) {
                None => comes_to(run, None, at),
                Some(id) => {
                    &&& at >= replies.len() ==> awaits(run, CommandView::TrySelectCommit { id })
                    &&& at < replies.len() && !(replies[at as int] is MaybeNode) ==> fails(
                        run,
                        FailureView::UnexpectedReply,
                    )
                    &&& at < replies.len() && replies[at as int] == Reply::MaybeNode(None)
                        ==> comes_to(run, None, at + 1)
                    &&& at < replies.len() ==> (replies[at as int] matches Reply::MaybeNode(
                        Some(node),
                    ) ==> {
                        &&& at + 1 >= replies.len() ==> awaits(
                            run,
                            CommandView::DirectParents { of: child },
                        )
                        &&& at + 1 < replies.len() ==> (replies[at as int + 1] matches Reply::Edges(
                            edges,
                        ) ==> if leads_to_node(edges@, node) {
                            comes_to(run, Some(node), at + 2)
                        } else {
                            comes_to(run, None, at + 2)
                        })
                    })
                },
            }
        }),
{
    if at + 1 < replies.len() {
        if let Reply::MaybeNode(Some(node)) = replies[at as int] {
            if let Reply::Edges(edges) = replies[at as int + 1] {
                law_first_edge_is_found(edges@, node);
            }
        }
    }
}

/// A node that is set apart is cut off from all its parents, and from nothing else.
pub proof fn law_node_is_cut_from_its_parents(replies: Seq<Reply>, at: nat, node: Selector)
    ensures
        at >= replies.len() ==> awaits(
            run_detach(replies, at, node),
            cut_off(node, SelectorSetView::Nothing, SelectorSetView::All),
        ),
        at < replies.len() ==> match replies[at as int] {
            Reply::Done => comes_to(run_detach(replies, at, node), (), at + 1),
            _ => fails(run_detach(replies, at, node), FailureView::UnexpectedReply),
        },
{
}

/// Whether a run inserts a step below a node with its next command, and comes to the new node.
pub open spec fn inserts(
    run: Run<Selector>,
    replies: Seq<Reply>,
    at: nat,
    target: Selector,
    step: Step,
) -> bool {
    &&& at >= replies.len() ==> awaits(run, CommandView::InsertBelow { target, step })
    &&& at < replies.len() ==> match replies[at as int] {
        Reply::Node(node) => comes_to(run, node, at + 1),
        _ => fails(run, FailureView::UnexpectedReply),
    }
}

/// Whether some edge leads to a node.
pub open spec fn leads_to_node(edges: Seq<Edge>, node: Selector) -> bool {
    exists|k: int| 0 <= k < edges.len() && (#[trigger] edges[k]).node == node
}

/// Whether an edge is the first that leads to a node.
pub open spec fn is_first_edge_to(edges: Seq<Edge>, node: Selector, edge: Edge) -> bool {
    exists|k: int|
        {
            &&& 0 <= k < edges.len()
            &&& #[trigger] edges[k] == edge
            &&& edge.node == node
            &&& forall|j: int| 0 <= j < k ==> (#[trigger] edges[j]).node != node
        }
}

/// Of several edges to a node the first is found, and one is found if there is any.
pub proof fn law_first_edge_is_found(edges: Seq<Edge>, node: Selector)
    ensures
        match first_edge_to(edges, node) {
            Some(edge) => is_first_edge_to(edges, node, edge) && leads_to_node(edges, node),
            None => !leads_to_node(edges, node),
        },
    decreases edges.len(),
{
    if edges.len() > 0 {
        let rest = edges.drop_first();
        law_first_edge_is_found(rest, node);
        if edges.first().node == node {
            assert(edges[0] == edges.first());
        } else {
            match first_edge_to(rest, node) {
                Some(edge) => {
                    let k = choose|k: int|
                        {
                            &&& 0 <= k < rest.len()
                            &&& #[trigger] rest[k] == edge
                            &&& edge.node == node
                            &&& forall|j: int| 0 <= j < k ==> (#[trigger] rest[j]).node != node
                        };
                    assert(edges[k + 1] == edge);
                    assert forall|j: int| 0 <= j < k + 1 implies (#[trigger] edges[j]).node
                        != node by {
                        if j > 0 {
                            assert(rest[j - 1] == edges[j]);
                        }
                    }
                },
                None => {
                    assert forall|k: int| 0 <= k < edges.len() implies (#[trigger] edges[k]).node
                        != node by {
                        if k > 0 {
                            assert(rest[k - 1] == edges[k]);
                        }
                    }
                },
            }
        }
    }
}

/// Nothing is put below a node by no steps; and putting steps below a node, and then further ones,
/// is putting the further ones below the lowest node that the first come to.
pub proof fn law_chain_goes_on_from_its_lowest_node(
    replies: Seq<Reply>,
    at: nat,
    child: Selector,
    steps: Seq<Step>,
    further: Seq<Step>,
)
    ensures
        comes_to(run_chain(replies, at, child, Seq::empty()), child, at),
        steps.len() == 1 ==> run_chain(replies, at, child, steps) == run_append(
            replies,
            at,
            child,
            steps[0],
        ),
        run_chain(replies, at, child, steps + further) == (match run_chain(
            replies,
            at,
            child,
            steps,
        ) {
            Run::Stopped(stop) => Run::Stopped(stop),
            Run::Done { value: lowest, next } => run_chain(replies, next, lowest, further),
        }),
    decreases steps.len(),
{
    if steps.len() == 0 {
        assert(steps + further =~= further);
    } else {
        assert((steps + further).drop_first() =~= steps.drop_first() + further);
        assert((steps + further).first() == steps.first());
        if let Run::Done { value: parent, next } = run_append(replies, at, child, steps.first()) {
            law_chain_goes_on_from_its_lowest_node(
                replies,
                next,
                parent,
                steps.drop_first(),
                further,
            );
            if steps.len() == 1 {
                assert(steps.drop_first() =~= Seq::empty());
            }
        }
    }
}

/// The commit of the merge base is looked up in the graph, and what its node stands for is put
/// below the lowest step.
pub proof fn law_merge_base_is_put_below(
    replies: Seq<Reply>,
    at: nat,
    child: Selector,
    merge_base: ObjectId,
)
    ensures
        ({
            let run = run_append_base(replies, at, child, merge_base);
            &&& at >= replies.len() ==> awaits(run, CommandView::SelectCommit { id: merge_base })
            &&& at < replies.len() ==> (replies[at as int] matches Reply::Node(base) ==> {
                &&& at + 1 >= replies.len() ==> awaits(run, CommandView::LookupStep { of: base })
                &&& at + 1 < replies.len() ==> match replies[at as int + 1] {
                    Reply::Step(step) => run == run_append(replies, at + 2, child, step),
                    _ => fails(run, FailureView::UnexpectedReply),
                }
            })
        }),
{
}

/// The steps are gone through from the last to the first, and what they put into the segment comes
/// after what is there: going through some steps is going through the later ones, and then through
/// the earlier ones with what came of the later.
pub proof fn law_later_steps_come_first(
    repo: &Repository,
    replies: Seq<Reply>,
    at: nat,
    earlier: Seq<IntegrationStepView>,
    later: Seq<IntegrationStepView>,
    segment: Seq<Step>,
)
    ensures
        comes_to(run_steps(repo, replies, at, Seq::empty(), segment), segment, at),
        later.len() == 1 ==> run_steps(repo, replies, at, later, segment) == (match run_step(
            repo,
            replies,
            at,
            later[0],
        ) {
            Run::Stopped(stop) => Run::Stopped(stop),
            Run::Done { value: None, next } => Run::Done { value: segment, next },
            Run::Done { value: Some(step), next } => Run::Done { value: segment.push(step), next },
        }),
        run_steps(repo, replies, at, earlier + later, segment) == (match run_steps(
            repo,
            replies,
            at,
            later,
            segment,
        ) {
            Run::Stopped(stop) => Run::Stopped(stop),
            Run::Done { value, next } => run_steps(repo, replies, next, earlier, value),
        }),
    decreases later.len(),
{
    if later.len() == 0 {
        assert(earlier + later =~= earlier);
    } else {
        assert((earlier + later).drop_last() =~= earlier + later.drop_last());
        assert((earlier + later).last() == later.last());
        if let Run::Done { value, next } = run_step(repo, replies, at, later.last()) {
            let longer = match value {
                Some(step) => segment.push(step),
                None => segment,
            };
            law_later_steps_come_first(repo, replies, next, earlier, later.drop_last(), longer);
            if later.len() == 1 {
                assert(later.drop_last() =~= Seq::empty());
            }
        }
    }
}

/// The edges of a node on one side.
pub open spec fn edges_of(node: Selector, side: EdgeSelection) -> CommandView {
    match side {
        EdgeSelection::Children => CommandView::DirectChildren { of: node },
        EdgeSelection::Parents => CommandView::DirectParents { of: node },
    }
}

/// The edges on one side of a node are listed, and then all or none of them are selected, or those
/// to the nodes that are named.
pub proof fn law_set_selects_among_the_edges(
    replies: Seq<Reply>,
    at: nat,
    target: Selector,
    selectors: SelectorSetView,
    side: EdgeSelection,
)
    ensures
        ({
            let run = run_selected_edges(replies, at, target, selectors, side);
            &&& at >= replies.len() ==> awaits(run, edges_of(target, side))
            &&& at < replies.len() ==> (replies[at as int] matches Reply::Edges(available)
                ==> match selectors {
                SelectorSetView::All => comes_to(run, available@, at + 1),
                SelectorSetView::Nothing => comes_to(run, Seq::empty(), at + 1),
                SelectorSetView::Only(wanted) => run == run_selection(
                    replies,
                    at + 1,
                    available@,
                    wanted,
                    Seq::empty(),
                ),
            })
        }),
{
}

/// Whether the replies from `at` on bring so many selectors up to date.
pub open spec fn resolves(replies: Seq<Reply>, at: nat, nodes: Seq<Selector>) -> bool {
    &&& at + nodes.len() <= replies.len()
    &&& forall|i: int|
        0 <= i < nodes.len() ==> replies[at + i] == Reply::Node(#[trigger] nodes[i])
}

/// Each wanted selector is brought up to date in turn, and stands for the first edge to its node.
/// A node that no edge leads to is refused.
pub proof fn law_wanted_nodes_are_resolved_in_turn(
    replies: Seq<Reply>,
    at: nat,
    available: Seq<Edge>,
    wanted: Seq<Selector>,
    selected: Seq<Edge>,
    nodes: Seq<Selector>,
)
    requires
        resolves(replies, at, nodes),
        nodes.len() <= wanted.len(),
    ensures
        (forall|i: int|
            0 <= i < nodes.len() ==> leads_to_node(available, #[trigger] nodes[i])) ==> {
            &&& nodes.len() < wanted.len() && at + nodes.len() == replies.len() ==> awaits(
                run_selection(replies, at, available, wanted, selected),
                CommandView::ResolveSelector { selector: wanted[nodes.len() as int] },
            )
            &&& nodes.len() == wanted.len() ==> {
                &&& run_selection(replies, at, available, wanted, selected) matches Run::Done {
                    value,
                    next,
                }
                &&& next == at + wanted.len()
                &&& value.len() == selected.len() + wanted.len()
                &&& value.take(selected.len() as int) == selected
                &&& forall|i: int|
                    0 <= i < nodes.len() ==> is_first_edge_to(
                        available,
                        #[trigger] nodes[i],
                        value[selected.len() + i],
                    )
            }
        },
        (exists|i: int| 0 <= i < nodes.len() && !leads_to_node(available, #[trigger] nodes[i]))
            ==> fails(
            run_selection(replies, at, available, wanted, selected),
            FailureView::EdgeNotFound,
        ),
    decreases wanted.len(),
{
    if nodes.len() == 0 {
        if wanted.len() == 0 {
            assert(selected.take(selected.len() as int) =~= selected);
        }
    } else {
        let node = nodes[0];
        let rest = nodes.drop_first();
        assert(replies[at as int + 0] == Reply::Node(node));
        law_first_edge_is_found(available, node);
        assert forall|i: int| 0 <= i < rest.len() implies replies[(at + 1) + i] == Reply::Node(
            #[trigger] rest[i],
        ) by {
            assert(rest[i] == nodes[i + 1]);
        }
        if let Some(edge) = first_edge_to(available, node) {
            let longer = selected.push(edge);
            law_wanted_nodes_are_resolved_in_turn(
                replies,
                at + 1,
                available,
                wanted.drop_first(),
                longer,
                rest,
            );
            if forall|i: int|
                0 <= i < nodes.len() ==> leads_to_node(available, #[trigger] nodes[i]) {
                assert forall|i: int| 0 <= i < rest.len() implies leads_to_node(
                    available,
                    #[trigger] rest[i],
                ) by {
                    assert(rest[i] == nodes[i + 1]);
                }
                if nodes.len() == wanted.len() {
                    let run = run_selection(replies, at, available, wanted, selected);
                    let value = run->value;
                    assert(value.take(selected.len() as int) =~= value.take(
                        longer.len() as int,
                    ).take(selected.len() as int));
                    assert(longer.take(selected.len() as int) =~= selected);
                    assert forall|i: int| 0 <= i < nodes.len() implies is_first_edge_to(
                        available,
                        #[trigger] nodes[i],
                        value[selected.len() + i],
                    ) by {
                        if i == 0 {
                            assert(value.take(longer.len() as int)[selected.len() as int] == edge);
                        } else {
                            assert(rest[i - 1] == nodes[i]);
                            assert(value[selected.len() + i] == value[longer.len() + (i - 1)]);
                        }
                    }
                }
            } else {
                let i = choose|i: int|
                    0 <= i < nodes.len() && !leads_to_node(available, #[trigger] nodes[i]);
                assert(i > 0);
                assert(rest[i - 1] == nodes[i]);
            }
        } else {
            assert(!leads_to_node(available, nodes[0]));
        }
    }
}

/// Whether an order is the greatest among edges, or 0 if there are none.
pub open spec fn is_greatest_order(edges: Seq<Edge>, order: nat) -> bool {
    &&& forall|k: int| 0 <= k < edges.len() ==> (#[trigger] edges[k]).order <= order
    &&& if edges.len() == 0 {
        order == 0
    } else {
        exists|k: int| 0 <= k < edges.len() && (#[trigger] edges[k]).order == order
    }
}

/// The greatest order among edges is that of one of them, and none has a greater one.
pub proof fn law_greatest_order_is_that_of_an_edge(edges: Seq<Edge>)
    ensures
        is_greatest_order(edges, max_order(edges)),
    decreases edges.len(),
{
    if edges.len() > 0 {
        let rest = edges.drop_last();
        law_greatest_order_is_that_of_an_edge(rest);
        assert forall|k: int| 0 <= k < edges.len() implies (#[trigger] edges[k]).order <= max_order(
            edges,
        ) by {
            if k < edges.len() - 1 {
                assert(rest[k] == edges[k]);
            }
        }
        if edges.last().order > max_order(rest) {
            assert(edges[edges.len() - 1].order == max_order(edges));
        } else if rest.len() > 0 {
            let k = choose|k: int|
                0 <= k < rest.len() && (#[trigger] rest[k]).order == max_order(rest);
            assert(edges[k].order == max_order(edges));
        } else {
            assert(edges[0].order == max_order(edges));
        }
    }
}

/// The command that adds the edge between a node and a neighbour on one side: a child stands at
/// its upper end, a parent at its lower end.
pub open spec fn new_edge(
    node: Selector,
    side: EdgeSelection,
    neighbour: Edge,
    order: usize,
) -> CommandView {
    match side {
        EdgeSelection::Children => CommandView::AddEdge {
            child: neighbour.node,
            parent: node,
            order,
        },
        EdgeSelection::Parents => CommandView::AddEdge {
            child: node,
            parent: neighbour.node,
            order,
        },
    }
}

/// A node is joined to neighbours on one side in turn. The edges that it has there are listed
/// first. Each new edge keeps its order, moved up so that order 0 comes right after the greatest
/// order among the listed ones. An edge whose order would be too large is refused.
pub proof fn law_neighbours_are_joined_after_present_edges(
    replies: Seq<Reply>,
    at: nat,
    node: Selector,
    side: EdgeSelection,
    edges: Seq<Edge>,
    present: Seq<Edge>,
    greatest: nat,
    k: nat,
)
    requires
        k <= edges.len(),
        at + 1 + k <= replies.len(),
        replies[at as int] matches Reply::Edges(list) && list@ == present,
        is_greatest_order(present, greatest),
        forall|i: int| 0 <= i < k ==> replies[#[trigger] (at + 1 + i)] == Reply::Done,
        forall|i: int|
            0 <= i < k ==> greatest + 1 + (#[trigger] edges[i]).order <= usize::MAX,
    ensures
        awaits(
            run_connect_side(replies.take(at as int), at, node, side, edges),
            edges_of(node, side),
        ),
        k == edges.len() ==> comes_to(
            run_connect_side(replies, at, node, side, edges),
            (),
            at + 1 + k,
        ),
        k < edges.len() && greatest + 1 + edges[k as int].order > usize::MAX ==> fails(
            run_connect_side(replies, at, node, side, edges),
            FailureView::EdgeOrderOverflow,
        ),
        k < edges.len() && greatest + 1 + edges[k as int].order <= usize::MAX && replies.len() == at
            + 1 + k ==> awaits(
            run_connect_side(replies, at, node, side, edges),
            new_edge(
                node,
                side,
                edges[k as int],
                (greatest + 1 + edges[k as int].order) as usize,
            ),
        ),
{
    law_greatest_order_is_that_of_an_edge(present);
    assert(max_order(present) == greatest) by {
        if present.len() > 0 {
            let i = choose|i: int|
                0 <= i < present.len() && (#[trigger] present[i]).order == greatest;
            let j = choose|j: int|
                0 <= j < present.len() && (#[trigger] present[j]).order == max_order(present);
            assert(present[i].order <= max_order(present));
            assert(present[j].order <= greatest);
        }
    }
    lemma_joined_one_by_one(replies, at + 1, node, side, edges, greatest, k);
}

proof fn lemma_joined_one_by_one(
    replies: Seq<Reply>,
    at: nat,
    node: Selector,
    side: EdgeSelection,
    edges: Seq<Edge>,
    greatest: nat,
    k: nat,
)
    requires
        k <= edges.len(),
        at + k <= replies.len(),
        forall|i: int| 0 <= i < k ==> replies[#[trigger] (at + i)] == Reply::Done,
        forall|i: int|
            0 <= i < k ==> greatest + 1 + (#[trigger] edges[i]).order <= usize::MAX,
    ensures
        run_join_all(replies, at, node, side, edges, greatest) == run_join_all(
            replies,
            at + k,
            node,
            side,
            edges.skip(k as int),
            greatest,
        ),
    decreases k,
{
    if k == 0 {
        assert(edges.skip(0) =~= edges);
    } else {
        assert(replies[at as int + 0] == Reply::Done);
        assert(edges[0].order + greatest + 1 <= usize::MAX);
        let rest = edges.drop_first();
        assert forall|i: int| 0 <= i < k - 1 implies replies[#[trigger] ((at + 1) + i)]
            == Reply::Done by {
            assert(replies[at + (i + 1)] == Reply::Done);
        }
        assert forall|i: int| 0 <= i < k - 1 implies greatest + 1 + (#[trigger] rest[i]).order
            <= usize::MAX by {
            assert(rest[i] == edges[i + 1]);
        }
        lemma_joined_one_by_one(replies, at + 1, node, side, rest, greatest, (k - 1) as nat);
        assert(rest.skip(k - 1) =~= edges.skip(k as int));
    }
}

/// A segment is joined to its children at its upper end, and then to its parents at its lower end.
pub proof fn law_segment_is_joined_at_both_ends(
    replies: Seq<Reply>,
    at: nat,
    segment: Segment,
    children: Seq<Edge>,
    parents: Seq<Edge>,
)
    ensures
        match run_connect_side(replies, at, segment.child, EdgeSelection::Children, children) {
            Run::Stopped(stop) => run_connect(replies, at, segment, children, parents)
                == Run::<()>::Stopped(stop),
            Run::Done { value: _, next } => run_connect(replies, at, segment, children, parents)
                == run_connect_side(
                replies,
                next,
                segment.parent,
                EdgeSelection::Parents,
                parents,
            ),
        },
{
}

/// A segment is built once its steps are known: the branch is looked up and cut off from all its
/// parents, the steps are put below it from child to parent, and the merge base below the lowest.
/// The segment reaches from the branch down to the merge base.
pub proof fn law_segment_hangs_from_the_branch(
    repo: &Repository,
    replies: Seq<Reply>,
    at: nat,
    name: Seq<u8>,
    merge_base: ObjectId,
    steps: Seq<IntegrationStepView>,
)
    ensures
        ({
            let run = run_segment(repo, replies, at, name, merge_base, steps);
            match run_steps(repo, replies, at, steps, seq![Step::Reference]) {
                Run::Stopped(stop) => run == Run::<Segment>::Stopped(stop),
                Run::Done { value: listed, next: n } => {
                    &&& n >= replies.len() ==> awaits(run, CommandView::SelectReference { name })
                    &&& n < replies.len() ==> (replies[n as int] matches Reply::Node(child) ==> {
                        &&& n + 1 >= replies.len() ==> awaits(
                            run,
                            cut_off(child, SelectorSetView::Nothing, SelectorSetView::All),
                        )
                        &&& n + 1 < replies.len() && replies[n as int + 1] == Reply::Done
                            ==> match run_chain(
                            replies,
                            n + 2,
                            child,
                            listed.subrange(1, listed.len() as int),
                        ) {
                            Run::Stopped(stop) => run == Run::<Segment>::Stopped(stop),
                            Run::Done { value: lowest, next: m } => match run_append_base(
                                replies,
                                m,
                                lowest,
                                merge_base,
                            ) {
                                Run::Stopped(stop) => run == Run::<Segment>::Stopped(stop),
                                Run::Done { value: parent, next } => comes_to(
                                    run,
                                    Segment { child, parent },
                                    next,
                                ),
                            },
                        }
                    })
                },
            }
        }),
{
}

/// What lies between a branch and its merge base is replaced: the edges to all children of the
/// branch and to the given parents of the merge base are noted, the old segment is cut off from
/// these, the new one is built, and it is joined to what was noted, and to nothing else.
pub proof fn law_new_segment_takes_the_place_of_the_old(
    repo: &Repository,
    replies: Seq<Reply>,
    at: nat,
    name: Seq<u8>,
    merge_base: ObjectId,
    steps: Seq<IntegrationStepView>,
    present: Segment,
    parents: SelectorSetView,
)
    ensures
        ({
            let run = run_replace(repo, replies, at, name, merge_base, steps, present, parents);
            match run_selected_edges(
                replies,
                at,
                present.child,
                SelectorSetView::All,
                EdgeSelection::Children,
            ) {
                Run::Stopped(stop) => run == Run::<()>::Stopped(stop),
                Run::Done { value: above, next: n } => match run_selected_edges(
                    replies,
                    n,
                    present.parent,
                    parents,
                    EdgeSelection::Parents,
                ) {
                    Run::Stopped(stop) => run == Run::<()>::Stopped(stop),
                    Run::Done { value: below, next: m } => {
                        &&& m >= replies.len() ==> awaits(
                            run,
                            CommandView::DisconnectSegment {
                                segment: present,
                                children: SelectorSetView::All,
                                parents,
                            },
                        )
                        &&& m < replies.len() && replies[m as int] == Reply::Done
                            ==> match run_segment(repo, replies, m + 1, name, merge_base, steps) {
                            Run::Stopped(stop) => run == Run::<()>::Stopped(stop),
                            Run::Done { value: segment, next } => run == run_connect(
                                replies,
                                next,
                                segment,
                                above,
                                below,
                            ),
                        }
                    },
                },
            }
        }),
{
}

/// An integration without steps is refused. Any other looks up the branch and the merge base, asks
/// which parents go with the merge base, and replaces what lies between the two; the rebase comes
/// last.
pub proof fn law_integration_replaces_the_branch_and_rebases(
    repo: &Repository,
    replies: Seq<Reply>,
    at: nat,
    name: Seq<u8>,
    merge_base: ObjectId,
    steps: Seq<IntegrationStepView>,
)
    ensures
        ({
            let run = run_integration(repo, replies, at, name, merge_base, steps);
            &&& steps.len() == 0 ==> fails(run, FailureView::NoSteps)
            &&& steps.len() > 0 ==> {
                &&& at >= replies.len() ==> awaits(run, CommandView::SelectReference { name })
                &&& at < replies.len() ==> (replies[at as int] matches Reply::Node(child) ==> {
                    &&& at + 1 >= replies.len() ==> awaits(
                        run,
                        CommandView::SelectCommit { id: merge_base },
                    )
                    &&& at + 1 < replies.len() ==> (replies[at as int + 1] matches Reply::Node(
                        parent,
                    ) ==> {
                        &&& at + 2 >= replies.len() ==> awaits(
                            run,
                            CommandView::DetermineParents { of: parent },
                        )
                        &&& at + 2 < replies.len() ==> (replies[at as int
                            + 2] matches Reply::Neighbours(parents) ==> match run_replace(
                            repo,
                            replies,
                            at + 3,
                            name,
                            merge_base,
                            steps,
                            Segment { child, parent },
                            parents@,
                        ) {
                            Run::Stopped(stop) => run == Run::<()>::Stopped(stop),
                            Run::Done { value: _, next } => {
                                &&& next >= replies.len() ==> awaits(run, CommandView::Rebase)
                                &&& next < replies.len() && replies[next as int] == Reply::Done
                                    ==> comes_to(run, (), next + 1)
                            },
                        })
                    })
                })
            }
        }),
{
}

} // verus!

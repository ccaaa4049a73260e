//! What holds when an operation is run again with more replies of the graph editor.
use crate::integration::edges::{
    first_edge_to, fresh_order, join, list_edges, max_order, run_connect, run_connect_side,
    run_join_all, run_selected_edges, run_selection, EdgeSelection,
};
use crate::integration::editor::{
    commit_reply, done_reply, edges_reply, maybe_node_reply, neighbours_reply, node_reply,
    nodes_reply, step_reply, CommandView, Edge, Reply, Run, Segment, Selector, SelectorSetView,
    Step,
};
use crate::integration::segment::{
    run_append, run_append_base, run_chain, run_connected_parent, run_detach, run_integration,
    run_pick, run_replace, run_segment, run_skip, run_step, run_steps,
};
use crate::integration::squash::{
    all_found, run_commits_of, run_ordered, run_squash, run_squash_ordered, run_try_select_all,
};
use crate::integration::steps::IntegrationStepView;
use crate::object_id::ObjectId;
use crate::repository::Repository;
use crate::stop::StopView;
use vstd::prelude::*;

verus! {

/// Whether a run with the first `n` replies is what a run with all of them is, but for asking for
/// a reply where the first do not suffice.
pub open spec fn continues<T>(part: Run<T>, whole: Run<T>, at: nat, n: nat) -> bool {
    &&& part is Stopped && part->Stopped_0 is Pending || part == whole
    &&& whole matches Run::Done { value: _, next } ==> at <= next && (next <= n ==> part == whole)
}

proof fn lemma_selection(
    replies: Seq<Reply>,
    n: nat,
    at: nat,
    available: Seq<Edge>,
    wanted: Seq<Selector>,
    selected: Seq<Edge>,
)
    requires
        n <= replies.len(),
    ensures
        continues(
            run_selection(replies.take(n as int), at, available, wanted, selected),
            run_selection(replies, at, available, wanted, selected),
            at,
            n,
        ),
    decreases wanted.len(),
{
    if wanted.len() > 0 {
        if let Run::Done { value: node, next } = node_reply(
            replies,
            at,
            CommandView::ResolveSelector { selector: wanted.first() },
        ) {
            if let Some(edge) = first_edge_to(available, node) {
                lemma_selection(
                    replies,
                    n,
                    next,
                    available,
                    wanted.drop_first(),
                    selected.push(edge),
                );
            }
        }
    }
}

proof fn lemma_selected_edges(
    replies: Seq<Reply>,
    n: nat,
    at: nat,
    target: Selector,
    selectors: SelectorSetView,
    side: EdgeSelection,
)
    requires
        n <= replies.len(),
    ensures
        continues(
            run_selected_edges(replies.take(n as int), at, target, selectors, side),
            run_selected_edges(replies, at, target, selectors, side),
            at,
            n,
        ),
{
    if let Run::Done { value: available, next } = edges_reply(
        replies,
        at,
        list_edges(target, side),
    ) {
        if let SelectorSetView::Only(wanted) = selectors {
            lemma_selection(replies, n, next, available, wanted, Seq::empty());
        }
    }
}

proof fn lemma_join_all(
    replies: Seq<Reply>,
    n: nat,
    at: nat,
    node: Selector,
    side: EdgeSelection,
    edges: Seq<Edge>,
    max: nat,
)
    requires
        n <= replies.len(),
    ensures
        continues(
            run_join_all(replies.take(n as int), at, node, side, edges, max),
            run_join_all(replies, at, node, side, edges, max),
            at,
            n,
        ),
    decreases edges.len(),
{
    if edges.len() > 0 {
        let order = fresh_order(max, edges.first().order);
        if let Run::Done { value: _, next } = done_reply(
            replies,
            at,
            join(node, side, edges.first().node, order as usize),
        ) {
            lemma_join_all(replies, n, next, node, side, edges.drop_first(), max);
        }
    }
}

proof fn lemma_connect_side(
    replies: Seq<Reply>,
    n: nat,
    at: nat,
    node: Selector,
    side: EdgeSelection,
    edges: Seq<Edge>,
)
    requires
        n <= replies.len(),
    ensures
        continues(
            run_connect_side(replies.take(n as int), at, node, side, edges),
            run_connect_side(replies, at, node, side, edges),
            at,
            n,
        ),
{
    if let Run::Done { value: present, next } = edges_reply(replies, at, list_edges(node, side)) {
        lemma_join_all(replies, n, next, node, side, edges, max_order(present));
    }
}

proof fn lemma_connect(
    replies: Seq<Reply>,
    n: nat,
    at: nat,
    segment: Segment,
    children: Seq<Edge>,
    parents: Seq<Edge>,
)
    requires
        n <= replies.len(),
    ensures
        continues(
            run_connect(replies.take(n as int), at, segment, children, parents),
            run_connect(replies, at, segment, children, parents),
            at,
            n,
        ),
{
    lemma_connect_side(replies, n, at, segment.child, EdgeSelection::Children, children);
    if let Run::Done { value: _, next } = run_connect_side(
        replies,
        at,
        segment.child,
        EdgeSelection::Children,
        children,
    ) {
        lemma_connect_side(replies, n, next, segment.parent, EdgeSelection::Parents, parents);
    }
}

proof fn lemma_try_select_all(
    replies: Seq<Reply>,
    n: nat,
    at: nat,
    commits: Seq<ObjectId>,
    found: Seq<Option<Selector>>,
)
    requires
        n <= replies.len(),
    ensures
        continues(
            run_try_select_all(replies.take(n as int), at, commits, found),
            run_try_select_all(replies, at, commits, found),
            at,
            n,
        ),
    decreases commits.len(),
{
    if commits.len() > 0 {
        if let Run::Done { value, next } = maybe_node_reply(
            replies,
            at,
            CommandView::TrySelectCommit { id: commits.first() },
        ) {
            lemma_try_select_all(replies, n, next, commits.drop_first(), found.push(value));
        }
    }
}

proof fn lemma_commits_of(
    replies: Seq<Reply>,
    n: nat,
    at: nat,
    nodes: Seq<Selector>,
    found: Seq<ObjectId>,
)
    requires
        n <= replies.len(),
    ensures
        continues(
            run_commits_of(replies.take(n as int), at, nodes, found),
            run_commits_of(replies, at, nodes, found),
            at,
            n,
        ),
    decreases nodes.len(),
{
    if nodes.len() > 0 {
        if let Run::Done { value, next } = commit_reply(
            replies,
            at,
            CommandView::FindSelectableCommit { selector: nodes.first() },
        ) {
            lemma_commits_of(replies, n, next, nodes.drop_first(), found.push(value));
        }
    }
}

proof fn lemma_ordered(replies: Seq<Reply>, n: nat, at: nat, commits: Seq<ObjectId>)
    requires
        n <= replies.len(),
    ensures
        continues(
            run_ordered(replies.take(n as int), at, commits),
            run_ordered(replies, at, commits),
            at,
            n,
        ),
{
    lemma_try_select_all(replies, n, at, commits, Seq::empty());
    if let Run::Done { value: found, next } = run_try_select_all(
        replies,
        at,
        commits,
        Seq::empty(),
    ) {
        if all_found(found) {
            if let Run::Done { value: nodes, next } = nodes_reply(
                replies,
                next,
                CommandView::OrderByParentage {
                    selectors: found.map_values(|node: Option<Selector>| node->Some_0),
                },
            ) {
                lemma_commits_of(replies, n, next, nodes, Seq::empty());
            }
        }
    }
}

proof fn lemma_squash_ordered(
    repo: &Repository,
    replies: Seq<Reply>,
    n: nat,
    at: nat,
    ordered: Seq<ObjectId>,
    message: Option<Seq<char>>,
)
    requires
        n <= replies.len(),
    ensures
        continues(
            run_squash_ordered(repo, replies.take(n as int), at, ordered, message),
            run_squash_ordered(repo, replies, at, ordered, message),
            at,
            n,
        ),
{
}

proof fn lemma_squash(
    repo: &Repository,
    replies: Seq<Reply>,
    n: nat,
    at: nat,
    commits: Seq<ObjectId>,
    message: Option<Seq<char>>,
)
    requires
        n <= replies.len(),
    ensures
        continues(
            run_squash(repo, replies.take(n as int), at, commits, message),
            run_squash(repo, replies, at, commits, message),
            at,
            n,
        ),
{
    lemma_ordered(replies, n, at, commits);
    if let Run::Done { value: ordered, next } = run_ordered(replies, at, commits) {
        lemma_squash_ordered(repo, replies, n, next, ordered, message);
    }
}

proof fn lemma_pick(replies: Seq<Reply>, n: nat, at: nat, commit: ObjectId)
    requires
        n <= replies.len(),
    ensures
        continues(
            run_pick(replies.take(n as int), at, commit),
            run_pick(replies, at, commit),
            at,
            n,
        ),
{
}

proof fn lemma_skip(replies: Seq<Reply>, n: nat, at: nat, commit: ObjectId)
    requires
        n <= replies.len(),
    ensures
        continues(
            run_skip(replies.take(n as int), at, commit),
            run_skip(replies, at, commit),
            at,
            n,
        ),
{
}

proof fn lemma_step(
    repo: &Repository,
    replies: Seq<Reply>,
    n: nat,
    at: nat,
    step: IntegrationStepView,
)
    requires
        n <= replies.len(),
    ensures
        continues(
            run_step(repo, replies.take(n as int), at, step),
            run_step(repo, replies, at, step),
            at,
            n,
        ),
{
    match step {
        IntegrationStepView::Skip { commit_id } => lemma_skip(replies, n, at, commit_id),
        IntegrationStepView::Pick { commit_id } => lemma_pick(replies, n, at, commit_id),
        IntegrationStepView::PickUpstream { commit_id } => lemma_pick(replies, n, at, commit_id),
        IntegrationStepView::Squash { commits, message } => lemma_squash(
            repo,
            replies,
            n,
            at,
            commits,
            message,
        ),
    }
}

proof fn lemma_steps(
    repo: &Repository,
    replies: Seq<Reply>,
    n: nat,
    at: nat,
    steps: Seq<IntegrationStepView>,
    segment: Seq<Step>,
)
    requires
        n <= replies.len(),
    ensures
        continues(
            run_steps(repo, replies.take(n as int), at, steps, segment),
            run_steps(repo, replies, at, steps, segment),
            at,
            n,
        ),
    decreases steps.len(),
{
    if steps.len() > 0 {
        lemma_step(repo, replies, n, at, steps.last());
        match run_step(repo, replies, at, steps.last()) {
            Run::Stopped(_) => {},
            Run::Done { value: None, next } => lemma_steps(
                repo,
                replies,
                n,
                next,
                steps.drop_last(),
                segment,
            ),
            Run::Done { value: Some(step), next } => lemma_steps(
                repo,
                replies,
                n,
                next,
                steps.drop_last(),
                segment.push(step),
            ),
        }
    }
}

proof fn lemma_append(replies: Seq<Reply>, n: nat, at: nat, child: Selector, step: Step)
    requires
        n <= replies.len(),
    ensures
        continues(
            run_append(replies.take(n as int), at, child, step),
            run_append(replies, at, child, step),
            at,
            n,
        ),
{
    assert(continues(
        run_connected_parent(replies.take(n as int), at, child, step),
        run_connected_parent(replies, at, child, step),
        at,
        n,
    ));
}

proof fn lemma_chain(replies: Seq<Reply>, n: nat, at: nat, child: Selector, steps: Seq<Step>)
    requires
        n <= replies.len(),
    ensures
        continues(
            run_chain(replies.take(n as int), at, child, steps),
            run_chain(replies, at, child, steps),
            at,
            n,
        ),
    decreases steps.len(),
{
    if steps.len() > 0 {
        lemma_append(replies, n, at, child, steps.first());
        if let Run::Done { value: parent, next } = run_append(replies, at, child, steps.first()) {
            lemma_chain(replies, n, next, parent, steps.drop_first());
        }
    }
}

proof fn lemma_append_base(
    replies: Seq<Reply>,
    n: nat,
    at: nat,
    child: Selector,
    merge_base: ObjectId,
)
    requires
        n <= replies.len(),
    ensures
        continues(
            run_append_base(replies.take(n as int), at, child, merge_base),
            run_append_base(replies, at, child, merge_base),
            at,
            n,
        ),
{
    if let Run::Done { value: base, next } = node_reply(
        replies,
        at,
        CommandView::SelectCommit { id: merge_base },
    ) {
        if let Run::Done { value: step, next } = step_reply(
            replies,
            next,
            CommandView::LookupStep { of: base },
        ) {
            lemma_append(replies, n, next, child, step);
        }
    }
}

proof fn lemma_segment(
    repo: &Repository,
    replies: Seq<Reply>,
    n: nat,
    at: nat,
    name: Seq<u8>,
    merge_base: ObjectId,
    steps: Seq<IntegrationStepView>,
)
    requires
        n <= replies.len(),
    ensures
        continues(
            run_segment(repo, replies.take(n as int), at, name, merge_base, steps),
            run_segment(repo, replies, at, name, merge_base, steps),
            at,
            n,
        ),
{
    lemma_steps(repo, replies, n, at, steps, seq![Step::Reference]);
    if let Run::Done { value: segment_steps, next } = run_steps(
        repo,
        replies,
        at,
        steps,
        seq![Step::Reference],
    ) {
        if let Run::Done { value: child, next } = node_reply(
            replies,
            next,
            CommandView::SelectReference { name },
        ) {
            if let Run::Done { value: _, next } = run_detach(replies, next, child) {
                lemma_chain(replies, n, next, child, segment_steps.skip(1));
                if let Run::Done { value: lowest, next } = run_chain(
                    replies,
                    next,
                    child,
                    segment_steps.skip(1),
                ) {
                    lemma_append_base(replies, n, next, lowest, merge_base);
                }
            }
        }
    }
}

#[verifier::rlimit(40)]
proof fn lemma_replace(
    repo: &Repository,
    replies: Seq<Reply>,
    n: nat,
    at: nat,
    name: Seq<u8>,
    merge_base: ObjectId,
    steps: Seq<IntegrationStepView>,
    present: Segment,
    parents: SelectorSetView,
)
    requires
        n <= replies.len(),
    ensures
        continues(
            run_replace(
                repo,
                replies.take(n as int),
                at,
                name,
                merge_base,
                steps,
                present,
                parents,
            ),
            run_replace(repo, replies, at, name, merge_base, steps, present, parents),
            at,
            n,
        ),
{
    let all = SelectorSetView::All;
    lemma_selected_edges(replies, n, at, present.child, all, EdgeSelection::Children);
    if let Run::Done { value: child_edges, next } = run_selected_edges(
        replies,
        at,
        present.child,
        all,
        EdgeSelection::Children,
    ) {
        lemma_selected_edges(replies, n, next, present.parent, parents, EdgeSelection::Parents);
        if let Run::Done { value: parent_edges, next } = run_selected_edges(
            replies,
            next,
            present.parent,
            parents,
            EdgeSelection::Parents,
        ) {
            if let Run::Done { value: _, next } = done_reply(
                replies,
                next,
                CommandView::DisconnectSegment { segment: present, children: all, parents },
            ) {
                lemma_segment(repo, replies, n, next, name, merge_base, steps);
                if let Run::Done { value: segment, next } = run_segment(
                    repo,
                    replies,
                    next,
                    name,
                    merge_base,
                    steps,
                ) {
                    lemma_connect(replies, n, next, segment, child_edges, parent_edges);
                }
            }
        }
    }
}

/// An integration that is run with the first replies alone either asks for the next one or comes
/// to what it comes to with all of them. With more replies it never takes back a command.
pub proof fn law_integration_continues_with_more_replies(
    repo: &Repository,
    replies: Seq<Reply>,
    n: nat,
    at: nat,
    name: Seq<u8>,
    merge_base: ObjectId,
    steps: Seq<IntegrationStepView>,
)
    requires
        n <= replies.len(),
    ensures
        continues(
            run_integration(repo, replies.take(n as int), at, name, merge_base, steps),
            run_integration(repo, replies, at, name, merge_base, steps),
            at,
            n,
        ),
{
    if let Run::Done { value: child, next } = node_reply(
        replies,
        at,
        CommandView::SelectReference { name },
    ) {
        if let Run::Done { value: parent, next } = node_reply(
            replies,
            next,
            CommandView::SelectCommit { id: merge_base },
        ) {
            if let Run::Done { value: parents, next } = neighbours_reply(
                replies,
                next,
                CommandView::DetermineParents { of: parent },
            ) {
                lemma_replace(
                    repo,
                    replies,
                    n,
                    next,
                    name,
                    merge_base,
                    steps,
                    Segment { child, parent },
                    parents,
                );
            }
        }
    }
}

/// An integration that comes to its end asks for the rebase as its last command, and for that
/// only when everything else has been replied to.
pub proof fn law_integration_ends_with_the_rebase(
    repo: &Repository,
    replies: Seq<Reply>,
    name: Seq<u8>,
    merge_base: ObjectId,
    steps: Seq<IntegrationStepView>,
)
    ensures
        run_integration(repo, replies, 0, name, merge_base, steps) matches Run::Done {
            value: _,
            next,
        } ==> 0 < next <= replies.len() && run_integration(
            repo,
            replies.take(next - 1),
            0,
            name,
            merge_base,
            steps,
        ) == Run::<()>::Stopped(StopView::Pending(CommandView::Rebase)),
{
    if let Run::Done { value: _, next: end } = run_integration(
        repo,
        replies,
        0,
        name,
        merge_base,
        steps,
    ) {
        let n = (end - 1) as nat;
        if let Run::Done { value: child, next } = node_reply(
            replies,
            0,
            CommandView::SelectReference { name },
        ) {
            if let Run::Done { value: parent, next } = node_reply(
                replies,
                next,
                CommandView::SelectCommit { id: merge_base },
            ) {
                if let Run::Done { value: parents, next } = neighbours_reply(
                    replies,
                    next,
                    CommandView::DetermineParents { of: parent },
                ) {
                    lemma_replace(
                        repo,
                        replies,
                        n,
                        next,
                        name,
                        merge_base,
                        steps,
                        Segment { child, parent },
                        parents,
                    );
                }
            }
        }
    }
}

} // verus!

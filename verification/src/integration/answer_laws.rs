//! What holds when an integration is run again with more answers about the repository.
use crate::integration::edges::{
    first_edge_to, fresh_order, join, list_edges, max_order, run_connect, run_connect_side,
    run_join_all, run_selected_edges, run_selection, EdgeSelection,
};
use crate::integration::editor::{
    commit_reply, done_reply, edges_reply, maybe_node_reply, message_reply, neighbours_reply,
    node_reply, nodes_reply, step_reply, CommandView, Edge, Reply, Run, Segment, Selector,
    SelectorSetView, Step,
};
use crate::integration::segment::{
    run_append, run_append_base, run_chain, run_connected_parent, run_detach, run_integration,
    run_pick, run_replace, run_segment, run_skip, run_step, run_steps,
};
use crate::integration::squash::{
    recorded_outcome, run_commits_of, run_ordered, run_squash, run_squash_ordered,
    run_try_select_all, squash_parents,
};
use crate::integration::steps::IntegrationStepView;
use crate::merge::{
    fold_ranges, force_ours, merge_outcome, outcome_of_commit, range_merge, OutcomeView,
};
use crate::merge_options::{forced_resolution, MergeOptions};
use crate::object_id::ObjectId;
use crate::plan::{
    below_range, below_ranges, chain_end, change_range, change_ranges, commits_read, distinct,
    first_parent, is_tip, lemma_ranges_are_change_ranges, plan, range_tips, selected_parent,
    PlannedCommitChange,
};
use crate::repository::{QueryView, Repository, TreeKind};
use crate::repository_laws::{
    adds_answer, is_open, is_settled, keeps_answers, law_answer_settles_an_open_question,
};
use crate::stop::StopView;
use vstd::prelude::*;
use vstd::utf8::encode_utf8;

verus! {

/// Whether the commits of a selection have been read.
spec fn all_read(repo: &Repository, selected: Seq<ObjectId>) -> bool {
    forall|commit: ObjectId|
        #![trigger repo.spec_commit(commit)]
        selected.contains(commit) ==> repo.spec_commit(commit) is Ok
}

proof fn lemma_commits_read(repo: &Repository, more: &Repository, selected: Seq<ObjectId>)
    requires
        keeps_answers(repo, more),
    ensures
        is_settled(repo, commits_read(repo, selected), commits_read(more, selected)),
        commits_read(repo, selected) is Ok ==> all_read(repo, selected),
    decreases selected.len(),
{
    if selected.len() > 0 {
        lemma_commits_read(repo, more, selected.drop_last());
        if commits_read(repo, selected) is Ok {
            assert forall|commit: ObjectId|
                #![trigger repo.spec_commit(commit)]
                selected.contains(commit) implies repo.spec_commit(commit) is Ok by {
                let k = choose|k: int| 0 <= k < selected.len() && selected[k] == commit;
                if k < selected.len() - 1 {
                    assert(selected.drop_last()[k] == commit);
                    assert(selected.drop_last().contains(commit));
                }
            }
        }
    }
}

proof fn lemma_selected_parent(
    repo: &Repository,
    more: &Repository,
    selected: Seq<ObjectId>,
    commit: ObjectId,
)
    requires
        keeps_answers(repo, more),
        all_read(repo, selected),
        selected.contains(commit),
    ensures
        first_parent(more, commit) == first_parent(repo, commit),
        first_parent(repo, commit) is Ok,
        selected_parent(more, selected, commit) == selected_parent(repo, selected, commit),
{
    assert(repo.spec_commit(commit) is Ok);
    assert(more.spec_commit(commit) == repo.spec_commit(commit));
}

proof fn lemma_is_tip(
    repo: &Repository,
    more: &Repository,
    selected: Seq<ObjectId>,
    commit: ObjectId,
)
    requires
        keeps_answers(repo, more),
        all_read(repo, selected),
    ensures
        is_tip(more, selected, commit) == is_tip(repo, selected, commit),
{
    assert forall|child: ObjectId|
        #![trigger selected.contains(child)]
        selected.contains(child) implies selected_parent(more, selected, child)
        == selected_parent(repo, selected, child) by {
        lemma_selected_parent(repo, more, selected, child);
    }
}

proof fn lemma_chain_end(
    repo: &Repository,
    more: &Repository,
    selected: Seq<ObjectId>,
    commit: ObjectId,
    steps: nat,
)
    requires
        keeps_answers(repo, more),
        all_read(repo, selected),
        selected.contains(commit),
    ensures
        chain_end(more, selected, commit, steps) == chain_end(repo, selected, commit, steps),
        chain_end(repo, selected, commit, steps) matches Some(lowest) ==> selected.contains(
            lowest,
        ),
    decreases steps,
{
    lemma_selected_parent(repo, more, selected, commit);
    if let Some(parent) = selected_parent(repo, selected, commit) {
        if steps > 0 {
            lemma_chain_end(repo, more, selected, parent, (steps - 1) as nat);
        }
    }
}

proof fn lemma_change_range(
    repo: &Repository,
    more: &Repository,
    selected: Seq<ObjectId>,
    tip: ObjectId,
)
    requires
        keeps_answers(repo, more),
        all_read(repo, selected),
        selected.contains(tip),
    ensures
        is_settled(repo, change_range(repo, selected, tip), change_range(more, selected, tip)),
        below_range(more, selected, tip) == below_range(repo, selected, tip),
{
    lemma_chain_end(repo, more, selected, tip, selected.len());
    if let Some(lowest) = chain_end(repo, selected, tip, selected.len()) {
        lemma_selected_parent(repo, more, selected, lowest);
    }
}

proof fn lemma_change_ranges(
    repo: &Repository,
    more: &Repository,
    selected: Seq<ObjectId>,
    candidates: Seq<ObjectId>,
)
    requires
        keeps_answers(repo, more),
        all_read(repo, selected),
        forall|k: int| 0 <= k < candidates.len() ==> selected.contains(#[trigger] candidates[k]),
    ensures
        is_settled(
            repo,
            change_ranges(repo, selected, candidates),
            change_ranges(more, selected, candidates),
        ),
    decreases candidates.len(),
{
    if candidates.len() > 0 {
        assert forall|k: int| 0 <= k < candidates.drop_last().len() implies selected.contains(
            #[trigger] candidates.drop_last()[k],
        ) by {
            assert(candidates[k] == candidates.drop_last()[k]);
        }
        lemma_change_ranges(repo, more, selected, candidates.drop_last());
        assert(selected.contains(candidates[candidates.len() - 1]));
        lemma_is_tip(repo, more, selected, candidates.last());
        lemma_change_range(repo, more, selected, candidates.last());
    }
}

/// A plan rests on what is known.
pub proof fn law_plan_rests_on_what_is_known(
    repo: &Repository,
    more: &Repository,
    commit_ids: Seq<ObjectId>,
)
    requires
        keeps_answers(repo, more),
    ensures
        is_settled(repo, plan(repo, commit_ids), plan(more, commit_ids)),
        is_settled(repo, below_ranges(repo, commit_ids), below_ranges(more, commit_ids)),
{
    let selected = distinct(commit_ids);
    lemma_commits_read(repo, more, selected);
    if commits_read(repo, selected) is Ok {
        assert forall|k: int| 0 <= k < selected.len() implies selected.contains(
            #[trigger] selected[k],
        ) by {}
        lemma_change_ranges(repo, more, selected, selected);
        if let Ok(ranges) = plan(repo, commit_ids) {
            assert forall|i: int| 0 <= i < ranges.len() implies below_range(
                more,
                selected,
                #[trigger] ranges[i].commit_id,
            ) == below_range(repo, selected, ranges[i].commit_id) by {
                lemma_ranges_are_change_ranges(repo, selected, selected, i);
                lemma_change_range(repo, more, selected, ranges[i].commit_id);
            }
            assert(below_ranges(repo, commit_ids)->Ok_0 =~= below_ranges(
                more,
                commit_ids,
            )->Ok_0);
        }
    }
}

proof fn lemma_outcome_of_commit(repo: &Repository, more: &Repository, commit: ObjectId)
    requires
        keeps_answers(repo, more),
    ensures
        is_settled(repo, outcome_of_commit(repo, commit), outcome_of_commit(more, commit)),
{
}

proof fn lemma_fold_ranges(
    repo: &Repository,
    more: &Repository,
    ranges: Seq<PlannedCommitChange>,
    ours: ObjectId,
    options: MergeOptions,
)
    requires
        keeps_answers(repo, more),
    ensures
        is_settled(
            repo,
            fold_ranges(repo, ranges, ours, options),
            fold_ranges(more, ranges, ours, options),
        ),
    decreases ranges.len(),
{
    if ranges.len() > 0 {
        let range = ranges.first();
        if let Ok(theirs) = repo.spec_tree(range.commit_id, TreeKind::AutoResolution) {
            if let Ok(merged) = repo.spec_merged_tree(
                range_merge(range, ours, theirs, options),
                forced_resolution(),
            ) {
                lemma_fold_ranges(repo, more, ranges.drop_first(), merged.tree, options);
            }
        }
    }
}

/// The outcome of a merge rests on what is known.
pub proof fn law_merge_rests_on_what_is_known(
    repo: &Repository,
    more: &Repository,
    commit_ids: Seq<ObjectId>,
    options: MergeOptions,
)
    requires
        keeps_answers(repo, more),
    ensures
        is_settled(
            repo,
            merge_outcome(repo, commit_ids, options),
            merge_outcome(more, commit_ids, options),
        ),
{
    law_plan_rests_on_what_is_known(repo, more, commit_ids);
    if let Ok(ranges) = plan(repo, commit_ids) {
        if ranges.len() == 1 {
            lemma_outcome_of_commit(repo, more, ranges[0].commit_id);
        } else if let Ok(base) = repo.spec_octopus_base(range_tips(ranges)) {
            if let Ok(ours) = repo.spec_tree(base, TreeKind::AutoResolution) {
                lemma_fold_ranges(repo, more, ranges, ours, options);
            }
        }
    }
}

proof fn lemma_squash_parents(repo: &Repository, more: &Repository, ordered: Seq<ObjectId>)
    requires
        keeps_answers(repo, more),
    ensures
        is_settled(repo, squash_parents(repo, ordered), squash_parents(more, ordered)),
{
    law_plan_rests_on_what_is_known(repo, more, ordered);
}

proof fn lemma_recorded_outcome(
    repo: &Repository,
    more: &Repository,
    outcome: OutcomeView,
    message: Seq<u8>,
)
    requires
        keeps_answers(repo, more),
    ensures
        is_settled(
            repo,
            recorded_outcome(repo, outcome, message),
            recorded_outcome(more, outcome, message),
        ),
{
}

/// Whether a run rests on what is known: it asks an open question, or it is the same for whoever
/// knows more.
pub open spec fn run_is_settled<T>(repo: &Repository, here: Run<T>, there: Run<T>) -> bool {
    match here {
        Run::Stopped(StopView::Unknown(query)) => is_open(repo, query),
        _ => there == here,
    }
}

/// Whether a run does not stop with a question.
pub open spec fn asks_nothing<T>(run: Run<T>) -> bool {
    !(run is Stopped && run->Stopped_0 is Unknown)
}

proof fn lemma_try_select_all_asks_nothing(
    replies: Seq<Reply>,
    at: nat,
    commits: Seq<ObjectId>,
    found: Seq<Option<Selector>>,
)
    ensures
        asks_nothing(run_try_select_all(replies, at, commits, found)),
    decreases commits.len(),
{
    if commits.len() > 0 {
        if let Run::Done { value, next } = maybe_node_reply(
            replies,
            at,
            CommandView::TrySelectCommit { id: commits.first() },
        ) {
            lemma_try_select_all_asks_nothing(
                replies,
                next,
                commits.drop_first(),
                found.push(value),
            );
        }
    }
}

proof fn lemma_commits_of_asks_nothing(
    replies: Seq<Reply>,
    at: nat,
    nodes: Seq<Selector>,
    found: Seq<ObjectId>,
)
    ensures
        asks_nothing(run_commits_of(replies, at, nodes, found)),
    decreases nodes.len(),
{
    if nodes.len() > 0 {
        if let Run::Done { value, next } = commit_reply(
            replies,
            at,
            CommandView::FindSelectableCommit { selector: nodes.first() },
        ) {
            lemma_commits_of_asks_nothing(replies, next, nodes.drop_first(), found.push(value));
        }
    }
}

proof fn lemma_ordered_asks_nothing(replies: Seq<Reply>, at: nat, commits: Seq<ObjectId>)
    ensures
        asks_nothing(run_ordered(replies, at, commits)),
{
    lemma_try_select_all_asks_nothing(replies, at, commits, Seq::empty());
    if let Run::Done { value: found, next } = run_try_select_all(
        replies,
        at,
        commits,
        Seq::empty(),
    ) {
        if let Run::Done { value: nodes, next } = nodes_reply(
            replies,
            next,
            CommandView::OrderByParentage {
                selectors: found.map_values(|node: Option<Selector>| node->Some_0),
            },
        ) {
            lemma_commits_of_asks_nothing(replies, next, nodes, Seq::empty());
        }
    }
}

proof fn lemma_selected_edges_ask_nothing(
    replies: Seq<Reply>,
    at: nat,
    target: Selector,
    selectors: SelectorSetView,
    side: EdgeSelection,
)
    ensures
        asks_nothing(run_selected_edges(replies, at, target, selectors, side)),
{
    if let Run::Done { value: available, next } = edges_reply(
        replies,
        at,
        list_edges(target, side),
    ) {
        if let SelectorSetView::Only(wanted) = selectors {
            lemma_selection_asks_nothing(replies, next, available, wanted, Seq::empty());
        }
    }
}

proof fn lemma_selection_asks_nothing(
    replies: Seq<Reply>,
    at: nat,
    available: Seq<Edge>,
    wanted: Seq<Selector>,
    selected: Seq<Edge>,
)
    ensures
        asks_nothing(run_selection(replies, at, available, wanted, selected)),
    decreases wanted.len(),
{
    if wanted.len() > 0 {
        if let Run::Done { value: node, next } = node_reply(
            replies,
            at,
            CommandView::ResolveSelector { selector: wanted.first() },
        ) {
            if let Some(edge) = first_edge_to(available, node) {
                lemma_selection_asks_nothing(
                    replies,
                    next,
                    available,
                    wanted.drop_first(),
                    selected.push(edge),
                );
            }
        }
    }
}

proof fn lemma_join_all_asks_nothing(
    replies: Seq<Reply>,
    at: nat,
    node: Selector,
    side: EdgeSelection,
    edges: Seq<Edge>,
    max: nat,
)
    ensures
        asks_nothing(run_join_all(replies, at, node, side, edges, max)),
    decreases edges.len(),
{
    if edges.len() > 0 {
        let order = fresh_order(max, edges.first().order);
        if let Run::Done { value: _, next } = done_reply(
            replies,
            at,
            join(node, side, edges.first().node, order as usize),
        ) {
            lemma_join_all_asks_nothing(replies, next, node, side, edges.drop_first(), max);
        }
    }
}

proof fn lemma_connect_side_asks_nothing(
    replies: Seq<Reply>,
    at: nat,
    node: Selector,
    side: EdgeSelection,
    edges: Seq<Edge>,
)
    ensures
        asks_nothing(run_connect_side(replies, at, node, side, edges)),
{
    if let Run::Done { value: present, next } = edges_reply(replies, at, list_edges(node, side)) {
        lemma_join_all_asks_nothing(replies, next, node, side, edges, max_order(present));
    }
}

proof fn lemma_connect_asks_nothing(
    replies: Seq<Reply>,
    at: nat,
    segment: Segment,
    children: Seq<Edge>,
    parents: Seq<Edge>,
)
    ensures
        asks_nothing(run_connect(replies, at, segment, children, parents)),
{
    let side = EdgeSelection::Children;
    lemma_connect_side_asks_nothing(replies, at, segment.child, side, children);
    if let Run::Done { value: _, next } = run_connect_side(
        replies,
        at,
        segment.child,
        side,
        children,
    ) {
        lemma_connect_side_asks_nothing(
            replies,
            next,
            segment.parent,
            EdgeSelection::Parents,
            parents,
        );
    }
}

proof fn lemma_append_asks_nothing(replies: Seq<Reply>, at: nat, child: Selector, step: Step)
    ensures
        asks_nothing(run_append(replies, at, child, step)),
{
    assert(asks_nothing(run_connected_parent(replies, at, child, step)));
}

proof fn lemma_chain_asks_nothing(
    replies: Seq<Reply>,
    at: nat,
    child: Selector,
    steps: Seq<Step>,
)
    ensures
        asks_nothing(run_chain(replies, at, child, steps)),
    decreases steps.len(),
{
    if steps.len() > 0 {
        lemma_append_asks_nothing(replies, at, child, steps.first());
        if let Run::Done { value: parent, next } = run_append(replies, at, child, steps.first()) {
            lemma_chain_asks_nothing(replies, next, parent, steps.drop_first());
        }
    }
}

proof fn lemma_append_base_asks_nothing(
    replies: Seq<Reply>,
    at: nat,
    child: Selector,
    merge_base: ObjectId,
)
    ensures
        asks_nothing(run_append_base(replies, at, child, merge_base)),
{
    if let Run::Done { value: base, next } = node_reply(
        replies,
        at,
        CommandView::SelectCommit { id: merge_base },
    ) {
        if let Run::Done { value: step, next } = step_reply(
            replies,
            next,
            CommandView::LookupStep { of: base },
        ) {
            lemma_append_asks_nothing(replies, next, child, step);
        }
    }
}

proof fn lemma_squash_ordered(
    repo: &Repository,
    more: &Repository,
    replies: Seq<Reply>,
    at: nat,
    ordered: Seq<ObjectId>,
    message: Option<Seq<char>>,
)
    requires
        keeps_answers(repo, more),
    ensures
        run_is_settled(
            repo,
            run_squash_ordered(repo, replies, at, ordered, message),
            run_squash_ordered(more, replies, at, ordered, message),
        ),
{
    law_merge_rests_on_what_is_known(repo, more, ordered, force_ours());
    lemma_squash_parents(repo, more, ordered);
    if let Ok(outcome) = merge_outcome(repo, ordered, force_ours()) {
        if let Run::Done { value: tip_message, next: _ } = message_reply(
            replies,
            at,
            CommandView::FindCommit { id: ordered.last() },
        ) {
            let text = match message {
                Some(text) => encode_utf8(text),
                None => tip_message,
            };
            lemma_recorded_outcome(repo, more, outcome, text);
        }
    }
}

proof fn lemma_squash(
    repo: &Repository,
    more: &Repository,
    replies: Seq<Reply>,
    at: nat,
    commits: Seq<ObjectId>,
    message: Option<Seq<char>>,
)
    requires
        keeps_answers(repo, more),
    ensures
        run_is_settled(
            repo,
            run_squash(repo, replies, at, commits, message),
            run_squash(more, replies, at, commits, message),
        ),
{
    lemma_ordered_asks_nothing(replies, at, commits);
    if let Run::Done { value: ordered, next } = run_ordered(replies, at, commits) {
        lemma_squash_ordered(repo, more, replies, next, ordered, message);
    }
}

proof fn lemma_step(
    repo: &Repository,
    more: &Repository,
    replies: Seq<Reply>,
    at: nat,
    step: IntegrationStepView,
)
    requires
        keeps_answers(repo, more),
    ensures
        run_is_settled(
            repo,
            run_step(repo, replies, at, step),
            run_step(more, replies, at, step),
        ),
{
    match step {
        IntegrationStepView::Skip { commit_id } => {
            assert(asks_nothing(run_skip(replies, at, commit_id)));
        },
        IntegrationStepView::Pick { commit_id } => {
            assert(asks_nothing(run_pick(replies, at, commit_id)));
        },
        IntegrationStepView::PickUpstream { commit_id } => {
            assert(asks_nothing(run_pick(replies, at, commit_id)));
        },
        IntegrationStepView::Squash { commits, message } => {
            lemma_squash(repo, more, replies, at, commits, message);
        },
    }
}

proof fn lemma_steps(
    repo: &Repository,
    more: &Repository,
    replies: Seq<Reply>,
    at: nat,
    steps: Seq<IntegrationStepView>,
    segment: Seq<Step>,
)
    requires
        keeps_answers(repo, more),
    ensures
        run_is_settled(
            repo,
            run_steps(repo, replies, at, steps, segment),
            run_steps(more, replies, at, steps, segment),
        ),
    decreases steps.len(),
{
    if steps.len() > 0 {
        lemma_step(repo, more, replies, at, steps.last());
        match run_step(repo, replies, at, steps.last()) {
            Run::Stopped(_) => {},
            Run::Done { value: None, next } => {
                lemma_steps(repo, more, replies, next, steps.drop_last(), segment);
            },
            Run::Done { value: Some(step), next } => {
                lemma_steps(repo, more, replies, next, steps.drop_last(), segment.push(step));
            },
        }
    }
}

proof fn lemma_segment(
    repo: &Repository,
    more: &Repository,
    replies: Seq<Reply>,
    at: nat,
    name: Seq<u8>,
    merge_base: ObjectId,
    steps: Seq<IntegrationStepView>,
)
    requires
        keeps_answers(repo, more),
    ensures
        run_is_settled(
            repo,
            run_segment(repo, replies, at, name, merge_base, steps),
            run_segment(more, replies, at, name, merge_base, steps),
        ),
{
    lemma_steps(repo, more, replies, at, steps, seq![Step::Reference]);
    if let Run::Done { value: segment_steps, next } = run_steps(
        repo,
        replies,
        at,
        steps,
        seq![Step::Reference],
    ) {
        if let Run::Done { value: child, next } = node_reply(
            replies,
            next,
            CommandView::SelectReference { name },
        ) {
            if let Run::Done { value: _, next } = run_detach(replies, next, child) {
                lemma_chain_asks_nothing(replies, next, child, segment_steps.skip(1));
                if let Run::Done { value: lowest, next } = run_chain(
                    replies,
                    next,
                    child,
                    segment_steps.skip(1),
                ) {
                    lemma_append_base_asks_nothing(replies, next, lowest, merge_base);
                }
            }
        }
    }
}

#[verifier::rlimit(40)]
proof fn lemma_replace(
    repo: &Repository,
    more: &Repository,
    replies: Seq<Reply>,
    at: nat,
    name: Seq<u8>,
    merge_base: ObjectId,
    steps: Seq<IntegrationStepView>,
    present: Segment,
    parents: SelectorSetView,
)
    requires
        keeps_answers(repo, more),
    ensures
        run_is_settled(
            repo,
            run_replace(repo, replies, at, name, merge_base, steps, present, parents),
            run_replace(more, replies, at, name, merge_base, steps, present, parents),
        ),
{
    let all = SelectorSetView::All;
    let (above, under) = (EdgeSelection::Children, EdgeSelection::Parents);
    lemma_selected_edges_ask_nothing(replies, at, present.child, all, above);
    if let Run::Done { value: child_edges, next } = run_selected_edges(
        replies,
        at,
        present.child,
        all,
        above,
    ) {
        lemma_selected_edges_ask_nothing(replies, next, present.parent, parents, under);
        if let Run::Done { value: parent_edges, next } = run_selected_edges(
            replies,
            next,
            present.parent,
            parents,
            under,
        ) {
            if let Run::Done { value: _, next } = done_reply(
                replies,
                next,
                CommandView::DisconnectSegment { segment: present, children: all, parents },
            ) {
                lemma_segment(repo, more, replies, next, name, merge_base, steps);
                if let Run::Done { value: segment, next } = run_segment(
                    repo,
                    replies,
                    next,
                    name,
                    merge_base,
                    steps,
                ) {
                    lemma_connect_asks_nothing(
                        replies,
                        next,
                        segment,
                        child_edges,
                        parent_edges,
                    );
                }
            }
        }
    }
}

/// An integration rests on what is known: what it comes to without asking a question it also
/// comes to with more answers, and the question it asks is open.
pub proof fn law_integration_rests_on_what_is_known(
    repo: &Repository,
    more: &Repository,
    replies: Seq<Reply>,
    at: nat,
    name: Seq<u8>,
    merge_base: ObjectId,
    steps: Seq<IntegrationStepView>,
)
    requires
        keeps_answers(repo, more),
    ensures
        run_is_settled(
            repo,
            run_integration(repo, replies, at, name, merge_base, steps),
            run_integration(more, replies, at, name, merge_base, steps),
        ),
{
    if let Run::Done { value: child, next } = node_reply(
        replies,
        at,
        CommandView::SelectReference { name },
    ) {
        if let Run::Done { value: parent, next } = node_reply(
            replies,
            next,
            CommandView::SelectCommit { id: merge_base },
        ) {
            if let Run::Done { value: parents, next } = neighbours_reply(
                replies,
                next,
                CommandView::DetermineParents { of: parent },
            ) {
                lemma_replace(
                    repo,
                    more,
                    replies,
                    next,
                    name,
                    merge_base,
                    steps,
                    Segment { child, parent },
                    parents,
                );
            }
        }
    }
}

/// The answer to the question that an integration stops with takes back no command: with it, the
/// integration gives every command that it gave before, on the same replies.
pub proof fn law_answer_takes_back_no_command(
    repo: &Repository,
    query: QueryView,
    more: &Repository,
    replies: Seq<Reply>,
    name: Seq<u8>,
    merge_base: ObjectId,
    steps: Seq<IntegrationStepView>,
    n: nat,
    command: CommandView,
)
    requires
        run_integration(repo, replies, 0, name, merge_base, steps) == Run::<()>::Stopped(
            StopView::Unknown(query),
        ),
        adds_answer(repo, query, more),
        n <= replies.len(),
        run_integration(
            repo,
            replies.take(n as int),
            0,
            name,
            merge_base,
            steps,
        ) == Run::<()>::Stopped(StopView::Pending(command)),
    ensures
        run_integration(
            more,
            replies.take(n as int),
            0,
            name,
            merge_base,
            steps,
        ) == Run::<()>::Stopped(StopView::Pending(command)),
        !is_open(more, query),
{
    assert(is_open(repo, query)) by {
        assert(keeps_answers(repo, repo));
        law_integration_rests_on_what_is_known(
            repo,
            repo,
            replies,
            0,
            name,
            merge_base,
            steps,
        );
    }
    law_answer_settles_an_open_question(repo, query, more);
    law_integration_rests_on_what_is_known(
        repo,
        more,
        replies.take(n as int),
        0,
        name,
        merge_base,
        steps,
    );
}

} // verus!

//! What an integration writes: the commits of its squashes, and no others.
use crate::integration::command_laws::{awaits, comes_to, fails};
use crate::integration::edges::{
    first_edge_to, max_order, run_connect, run_connect_side, run_join_all, run_selected_edges,
    run_selection, EdgeSelection,
};
use crate::integration::editor::{
    CommandView, CommitDraftView, DateMode, Edge, Reply, Run, Segment, Selector, SelectorSetView,
    Step,
};
use crate::integration::segment::{
    run_append, run_append_base, run_chain, run_integration, run_replace, run_segment, run_step,
    run_steps,
};
use crate::integration::squash::{
    all_found, recorded_outcome, run_commits_of, run_ordered, run_try_select_all, squash_parents,
};
use crate::integration::squash_laws::law_squash_records_the_merge;
use crate::integration::steps::IntegrationStepView;
use crate::merge::{merge_outcome, OutcomeView};
use crate::merge_options::{FileFavor, MergeOptions, RenameTracking, TreeFavor};
use crate::object_id::ObjectId;
use crate::plan::{below_ranges, distinct};
use crate::plan_laws::law_distinct_keeps_first_occurrences;
use crate::repository::{ConflictedTrees, Repository};
use crate::stop::{FailureView, StopView};
use vstd::prelude::*;
use vstd::utf8::encode_utf8;

verus! {

/// Whether the replies from `at` on tell which nodes the graph has.
pub open spec fn tells_nodes(replies: Seq<Reply>, at: nat, found: Seq<Option<Selector>>) -> bool {
    &&& at + found.len() <= replies.len()
    &&& forall|k: int|
        0 <= k < found.len() ==> replies[at + k] == Reply::MaybeNode(#[trigger] found[k])
}

/// Whether the replies from `at` on name commits.
pub open spec fn names_commits(replies: Seq<Reply>, at: nat, commits: Seq<ObjectId>) -> bool {
    &&& at + commits.len() <= replies.len()
    &&& forall|k: int|
        0 <= k < commits.len() ==> replies[at + k] == Reply::Commit(#[trigger] commits[k])
}

/// Whether the graph has a node for every commit.
pub open spec fn has_every_node(found: Seq<Option<Selector>>) -> bool {
    forall|k: int| 0 <= k < found.len() ==> (#[trigger] found[k]) is Some
}

/// Whether the replies put commits in order. If the graph has every one of them they are those of
/// the nodes that the editor sorted, and otherwise they stay as they were named.
pub open spec fn put_in_order(
    replies: Seq<Reply>,
    at: nat,
    commits: Seq<ObjectId>,
    ordered: Seq<ObjectId>,
    next: nat,
) -> bool {
    exists|found: Seq<Option<Selector>>|
        {
            &&& #[trigger] tells_nodes(replies, at, found)
            &&& found.len() == commits.len()
            &&& if has_every_node(found) {
                let n = at + commits.len();
                &&& n < replies.len()
                &&& replies[n as int] matches Reply::Nodes(sorted)
                &&& sorted@.len() == ordered.len()
                &&& names_commits(replies, n + 1, ordered)
                &&& next == n + 1 + ordered.len()
            } else {
                ordered == commits && next == at + commits.len()
            }
        }
}

/// The commits of a squash are put in order by the graph editor if the graph has them all, and stay
/// in the order in which they were named if it does not.
pub proof fn law_squashed_commits_are_put_in_order(
    replies: Seq<Reply>,
    at: nat,
    commits: Seq<ObjectId>,
    ordered: Seq<ObjectId>,
    next: nat,
)
    requires
        at <= replies.len() || commits.len() > 0,
    ensures
        comes_to(run_ordered(replies, at, commits), ordered, next) <==> put_in_order(
            replies,
            at,
            commits,
            ordered,
            next,
        ),
{
    let n = at + commits.len();
    if comes_to(run_ordered(replies, at, commits), ordered, next) {
        lemma_nodes_were_told(replies, at, commits, Seq::empty());
        let run = run_try_select_all(replies, at, commits, Seq::empty());
        let found = run->value;
        assert(found.skip(0) =~= found);
        assert(tells_nodes(replies, at, found));
        assert(all_found(found) == has_every_node(found));
        if has_every_node(found) {
            let sorted = replies[n as int]->Nodes_0;
            lemma_commits_were_named(replies, n + 1, sorted@, Seq::empty());
            assert(ordered.skip(0) =~= ordered);
        }
        assert(put_in_order(replies, at, commits, ordered, next));
    }
    if put_in_order(replies, at, commits, ordered, next) {
        let found = choose|found: Seq<Option<Selector>>|
            {
                &&& #[trigger] tells_nodes(replies, at, found)
                &&& found.len() == commits.len()
                &&& if has_every_node(found) {
                    &&& n < replies.len()
                    &&& replies[n as int] matches Reply::Nodes(sorted)
                    &&& sorted@.len() == ordered.len()
                    &&& names_commits(replies, n + 1, ordered)
                    &&& next == n + 1 + ordered.len()
                } else {
                    ordered == commits && next == at + commits.len()
                }
            };
        lemma_told_nodes(replies, at, commits, Seq::empty(), found);
        assert(commits.skip(found.len() as int) =~= Seq::empty());
        assert(Seq::<Option<Selector>>::empty() + found =~= found);
        assert(all_found(found) == has_every_node(found));
        if has_every_node(found) {
            let sorted = replies[n as int]->Nodes_0;
            lemma_named_commits(replies, n + 1, sorted@, Seq::empty(), ordered);
            assert(sorted@.skip(ordered.len() as int) =~= Seq::empty());
            assert(Seq::<ObjectId>::empty() + ordered =~= ordered);
        }
    }
}

/// Each commit of a squash is looked for in turn. If the graph has them all, their nodes are handed
/// over to be sorted, and the commit of each sorted node is asked for in turn.
pub proof fn law_squashed_commits_are_looked_for_in_turn(
    replies: Seq<Reply>,
    at: nat,
    commits: Seq<ObjectId>,
    found: Seq<Option<Selector>>,
    named: Seq<ObjectId>,
)
    requires
        tells_nodes(replies, at, found),
        found.len() <= commits.len(),
    ensures
        found.len() < commits.len() && replies.len() == at + found.len() ==> awaits(
            run_ordered(replies, at, commits),
            CommandView::TrySelectCommit { id: commits[found.len() as int] },
        ),
        found.len() == commits.len() && has_every_node(found) ==> {
            let n = at + commits.len();
            &&& replies.len() == n ==> awaits(
                run_ordered(replies, at, commits),
                CommandView::OrderByParentage {
                    selectors: Seq::new(found.len(), |k: int| found[k]->Some_0),
                },
            )
            &&& replies.len() == n + 1 + named.len() && names_commits(replies, n + 1, named) ==> (
            replies[n as int] matches Reply::Nodes(sorted) ==> (named.len() < sorted@.len()
                ==> awaits(
                run_ordered(replies, at, commits),
                CommandView::FindSelectableCommit { selector: sorted@[named.len() as int] },
            )))
        },
{
    let n = at + commits.len();
    lemma_told_nodes(replies, at, commits, Seq::empty(), found);
    assert(Seq::<Option<Selector>>::empty() + found =~= found);
    let rest = commits.skip(found.len() as int);
    if found.len() < commits.len() {
        assert(rest.first() == commits[found.len() as int]);
    } else {
        assert(rest =~= Seq::empty());
        assert(all_found(found) == has_every_node(found));
        assert(found.map_values(|node: Option<Selector>| node->Some_0) =~= Seq::new(
            found.len(),
            |k: int| found[k]->Some_0,
        ));
        if replies.len() == n + 1 + named.len() && names_commits(replies, n + 1, named) {
            if let Reply::Nodes(sorted) = replies[n as int] {
                if named.len() < sorted@.len() {
                    lemma_named_commits(replies, n + 1, sorted@, Seq::empty(), named);
                    assert(sorted@.skip(named.len() as int).first() == sorted@[named.len() as int]);
                }
            }
        }
    }
}

proof fn lemma_told_nodes(
    replies: Seq<Reply>,
    at: nat,
    commits: Seq<ObjectId>,
    before: Seq<Option<Selector>>,
    found: Seq<Option<Selector>>,
)
    requires
        tells_nodes(replies, at, found),
        found.len() <= commits.len(),
    ensures
        run_try_select_all(replies, at, commits, before) == run_try_select_all(
            replies,
            at + found.len(),
            commits.skip(found.len() as int),
            before + found,
        ),
    decreases found.len(),
{
    if found.len() == 0 {
        assert(commits.skip(0) =~= commits);
        assert(before + found =~= before);
    } else {
        let rest = found.drop_first();
        assert(replies[at as int] == Reply::MaybeNode(found[0]));
        assert forall|k: int| 0 <= k < rest.len() implies replies[(at + 1) + k]
            == Reply::MaybeNode(#[trigger] rest[k]) by {
            assert(rest[k] == found[k + 1]);
        }
        lemma_told_nodes(replies, at + 1, commits.drop_first(), before.push(found[0]), rest);
        assert(commits.drop_first().skip(rest.len() as int) =~= commits.skip(found.len() as int));
        assert(before.push(found[0]) + rest =~= before + found);
    }
}

proof fn lemma_nodes_were_told(
    replies: Seq<Reply>,
    at: nat,
    commits: Seq<ObjectId>,
    before: Seq<Option<Selector>>,
)
    requires
        at <= replies.len() || commits.len() > 0,
    ensures
        run_try_select_all(replies, at, commits, before) matches Run::Done { value, next } ==> {
            &&& value.len() == before.len() + commits.len()
            &&& next == at + commits.len()
            &&& value.take(before.len() as int) == before
            &&& tells_nodes(replies, at, value.skip(before.len() as int))
        },
    decreases commits.len(),
{
    if commits.len() == 0 {
        assert(before.take(before.len() as int) =~= before);
    } else if at < replies.len() {
        if let Reply::MaybeNode(node) = replies[at as int] {
            let longer = before.push(node);
            lemma_nodes_were_told(replies, at + 1, commits.drop_first(), longer);
            if let Run::Done { value, next: _ } = run_try_select_all(
                replies,
                at,
                commits,
                before,
            ) {
                let later = value.skip(longer.len() as int);
                let all = value.skip(before.len() as int);
                assert(value.take(longer.len() as int)[before.len() as int] == node);
                assert(value.take(before.len() as int) =~= before) by {
                    assert(value.take(before.len() as int) =~= value.take(
                        longer.len() as int,
                    ).take(before.len() as int));
                    assert(longer.take(before.len() as int) =~= before);
                }
                assert forall|k: int| 0 <= k < all.len() implies replies[at + k]
                    == Reply::MaybeNode(#[trigger] all[k]) by {
                    if k > 0 {
                        assert(all[k] == later[k - 1]);
                    }
                }
            }
        }
    }
}

proof fn lemma_named_commits(
    replies: Seq<Reply>,
    at: nat,
    nodes: Seq<Selector>,
    before: Seq<ObjectId>,
    named: Seq<ObjectId>,
)
    requires
        names_commits(replies, at, named),
        named.len() <= nodes.len(),
    ensures
        run_commits_of(replies, at, nodes, before) == run_commits_of(
            replies,
            at + named.len(),
            nodes.skip(named.len() as int),
            before + named,
        ),
    decreases named.len(),
{
    if named.len() == 0 {
        assert(nodes.skip(0) =~= nodes);
        assert(before + named =~= before);
    } else {
        let rest = named.drop_first();
        assert(replies[at as int] == Reply::Commit(named[0]));
        assert forall|k: int| 0 <= k < rest.len() implies replies[(at + 1) + k] == Reply::Commit(
            #[trigger] rest[k],
        ) by {
            assert(rest[k] == named[k + 1]);
        }
        lemma_named_commits(replies, at + 1, nodes.drop_first(), before.push(named[0]), rest);
        assert(nodes.drop_first().skip(rest.len() as int) =~= nodes.skip(named.len() as int));
        assert(before.push(named[0]) + rest =~= before + named);
    }
}

proof fn lemma_commits_were_named(
    replies: Seq<Reply>,
    at: nat,
    nodes: Seq<Selector>,
    before: Seq<ObjectId>,
)
    requires
        at <= replies.len(),
    ensures
        run_commits_of(replies, at, nodes, before) matches Run::Done { value, next } ==> {
            &&& value.len() == before.len() + nodes.len()
            &&& next == at + nodes.len()
            &&& value.take(before.len() as int) == before
            &&& names_commits(replies, at, value.skip(before.len() as int))
        },
    decreases nodes.len(),
{
    if nodes.len() == 0 {
        assert(before.take(before.len() as int) =~= before);
    } else if at < replies.len() {
        if let Reply::Commit(id) = replies[at as int] {
            let longer = before.push(id);
            lemma_commits_were_named(replies, at + 1, nodes.drop_first(), longer);
            if let Run::Done { value, next: _ } = run_commits_of(replies, at, nodes, before) {
                let later = value.skip(longer.len() as int);
                let all = value.skip(before.len() as int);
                assert(value.take(longer.len() as int)[before.len() as int] == id);
                assert(value.take(before.len() as int) =~= before) by {
                    assert(value.take(before.len() as int) =~= value.take(
                        longer.len() as int,
                    ).take(before.len() as int));
                    assert(longer.take(before.len() as int) =~= before);
                }
                assert forall|k: int| 0 <= k < all.len() implies replies[at + k] == Reply::Commit(
                    #[trigger] all[k],
                ) by {
                    if k > 0 {
                        assert(all[k] == later[k - 1]);
                    }
                }
            }
        }
    }
}

/// Whether a tree and a message record the outcome of a merge under a text. Without a conflict they
/// are the merged tree and the text. With one, the tree stores the conflict's three trees and its
/// paths beside the tree in which it is resolved, and the text is marked.
pub open spec fn records(
    repo: &Repository,
    outcome: OutcomeView,
    text: Seq<u8>,
    tree: ObjectId,
    message: Seq<u8>,
) -> bool {
    match outcome.conflict {
        None => tree == outcome.tree_id && message == text,
        Some(conflict) => {
            &&& repo.spec_conflicted_tree(
                outcome.tree_id,
                ConflictedTrees {
                    base: conflict.base_tree_id,
                    ours: conflict.ours_tree_id,
                    theirs: conflict.theirs_tree_id,
                },
                conflict.conflict_entries,
            ) == Ok::<_, StopView>(tree)
            &&& repo.spec_conflict_markers(text) == Ok::<_, StopView>(message)
        },
    }
}

/// A conflict is recorded in the tree and marked in the message; an outcome without one is recorded
/// as it is.
pub proof fn law_conflict_is_recorded(
    repo: &Repository,
    outcome: OutcomeView,
    text: Seq<u8>,
    tree: ObjectId,
    message: Seq<u8>,
)
    ensures
        recorded_outcome(repo, outcome, text) == Ok::<_, StopView>((tree, message)) <==> records(
            repo,
            outcome,
            text,
            tree,
            message,
        ),
        recorded_outcome(repo, outcome, text) matches Err(stop) ==> stop is Unknown,
{
}

/// Whether the replies lead a squash to a commit of this kind: it is like the last of the commits
/// in order, stands on their common ground, and records their merge, in which our side is favoured,
/// under the step's own message, or under that of the last commit if the step has none.
pub open spec fn leads_to_draft(
    repo: &Repository,
    replies: Seq<Reply>,
    at: nat,
    commits: Seq<ObjectId>,
    message: Option<Seq<char>>,
    draft: CommitDraftView,
    ordered: Seq<ObjectId>,
    next: nat,
) -> bool {
    &&& commits.len() >= 2
    &&& put_in_order(replies, at, commits, ordered, next)
    &&& next < replies.len()
    &&& replies[next as int] matches Reply::Message(tip_message)
    &&& draft.like == ordered.last()
    &&& squash_parents(repo, ordered) == Ok::<_, StopView>(draft.parents)
    &&& merge_outcome(
        repo,
        ordered,
        MergeOptions {
            tree_favor: Some(TreeFavor::Ours),
            file_favor: Some(FileFavor::Ours),
            fail_on_conflict: None,
            renames: RenameTracking::AsConfigured,
        },
    ) matches Ok(outcome)
    &&& match message {
        Some(text) => records(repo, outcome, encode_utf8(text), draft.tree, draft.message),
        None => records(repo, outcome, tip_message@, draft.tree, draft.message),
    }
}

/// A step that squashes commits writes a commit of these commits, under its own message. It asks
/// for the message of the last commit first, and picks the commit that was written.
pub proof fn law_squash_step_writes_its_commits_under_its_message(
    repo: &Repository,
    replies: Seq<Reply>,
    at: nat,
    commits: Seq<ObjectId>,
    message: Option<Seq<char>>,
    draft: CommitDraftView,
    ordered: Seq<ObjectId>,
    next: nat,
)
    requires
        leads_to_draft(repo, replies, at, commits, message, draft, ordered, next),
    ensures
        ({
            let run = run_step(
                repo,
                replies,
                at,
                IntegrationStepView::Squash { commits, message },
            );
            &&& next + 1 >= replies.len() ==> awaits(
                run,
                CommandView::NewCommit { draft, dates: DateMode::CommitterUpdateAuthorKeep },
            )
            &&& next + 1 < replies.len() ==> (replies[next as int + 1] matches Reply::Commit(id)
                ==> comes_to(run, Some(Step::NewPick { id }), next + 2))
        }),
{
    law_squashed_commits_are_put_in_order(replies, at, commits, ordered, next);
}

/// A commit that a step writes is one of the squashed commits of that step, under its own message:
/// what the replies lead to.
pub proof fn law_written_commit_is_that_of_a_squash(
    repo: &Repository,
    replies: Seq<Reply>,
    at: nat,
    step: IntegrationStepView,
    draft: CommitDraftView,
    dates: DateMode,
)
    requires
        awaits(run_step(repo, replies, at, step), CommandView::NewCommit { draft, dates }),
    ensures
        dates == DateMode::CommitterUpdateAuthorKeep,
        step matches IntegrationStepView::Squash { commits, message } && exists|
            ordered: Seq<ObjectId>,
            next: nat,
        | #[trigger]
            leads_to_draft(repo, replies, at, commits, message, draft, ordered, next)
                && replies.len() == next + 1,
{
    if let IntegrationStepView::Squash { commits, message } = step {
        law_squash_records_the_merge(repo, replies, at, commits, message, draft, dates);
        if let Run::Done { value: ordered, next } = run_ordered(replies, at, commits) {
            law_squashed_commits_are_put_in_order(replies, at, commits, ordered, next);
            assert(leads_to_draft(repo, replies, at, commits, message, draft, ordered, next));
        }
    }
}

/// A squash of fewer than two commits is refused. Any other waits for what its order, its merge
/// and its parents need, and then for the message of the last commit in order.
pub proof fn law_squash_reads_the_last_message(
    repo: &Repository,
    replies: Seq<Reply>,
    at: nat,
    commits: Seq<ObjectId>,
    message: Option<Seq<char>>,
    ordered: Seq<ObjectId>,
)
    ensures
        ({
            let run = run_step(
                repo,
                replies,
                at,
                IntegrationStepView::Squash { commits, message },
            );
            let options = MergeOptions {
                tree_favor: Some(TreeFavor::Ours),
                file_favor: Some(FileFavor::Ours),
                fail_on_conflict: None,
                renames: RenameTracking::AsConfigured,
            };
            &&& commits.len() < 2 ==> fails(run, FailureView::SquashTooSmall)
            &&& commits.len() >= 2 && put_in_order(
                replies,
                at,
                commits,
                ordered,
                replies.len(),
            ) ==> {
                &&& merge_outcome(repo, ordered, options) matches Err(stop) ==> run == Run::<
                    Option<Step>,
                >::Stopped(stop)
                &&& merge_outcome(repo, ordered, options) is Ok ==> match squash_parents(
                    repo,
                    ordered,
                ) {
                    Err(stop) => run == Run::<Option<Step>>::Stopped(stop),
                    Ok(_) => awaits(run, CommandView::FindCommit { id: ordered.last() }),
                }
            }
        }),
{
    if commits.len() >= 2 {
        law_squashed_commits_are_put_in_order(replies, at, commits, ordered, replies.len());
    }
}

/// A commit made of several stands on the one commit that lies below all their ranges, on the merge
/// base of what lies below them if this differs, and on nothing if one of the ranges reaches down
/// to a root.
pub proof fn law_squash_stands_on_what_lies_below(repo: &Repository, ordered: Seq<ObjectId>)
    requires
        below_ranges(repo, ordered) is Ok,
    ensures
        ({
            let below = below_ranges(repo, ordered)->Ok_0;
            let parents = squash_parents(repo, ordered);
            &&& (exists|k: int| 0 <= k < below.len() && (#[trigger] below[k]) is None) ==> parents
                == Ok::<_, StopView>(Seq::<ObjectId>::empty())
            &&& forall|commit: ObjectId| #[trigger]
                is_below_all(below, commit) ==> parents == Ok::<_, StopView>(seq![commit])
            &&& forall|bases: Seq<ObjectId>|
                #![trigger repo.spec_octopus_base(bases)]
                is_list_of(below, bases) && bases.len() > 1 ==> parents
                    == match repo.spec_octopus_base(bases) {
                    Ok(base) => Ok(seq![base]),
                    Err(stop) => Err(stop),
                }
        }),
{
    let below = below_ranges(repo, ordered)->Ok_0;
    let commits = below.map_values(|commit: Option<ObjectId>| commit->Some_0);
    law_distinct_keeps_first_occurrences(commits);
    assert forall|commit: ObjectId| #[trigger] is_below_all(below, commit) implies squash_parents(
        repo,
        ordered,
    ) == Ok::<_, StopView>(seq![commit]) by {
        assert forall|id: ObjectId| #[trigger] distinct(commits).contains(id) implies id
            == commit by {
            assert(commits.contains(id));
            let k = choose|k: int| 0 <= k < commits.len() && commits[k] == id;
            assert(below[k] == Some(commit));
        }
        assert(commits.contains(commits[0]));
        assert(distinct(commits).contains(commits[0]));
        assert(distinct(commits).len() > 0);
        if distinct(commits).len() > 1 {
            assert(distinct(commits).contains(distinct(commits)[0]));
            assert(distinct(commits).contains(distinct(commits)[1]));
        }
        assert(distinct(commits).contains(distinct(commits)[0]));
    }
    assert forall|bases: Seq<ObjectId>|
        #![trigger repo.spec_octopus_base(bases)]
        is_list_of(below, bases) && bases.len() > 1 implies squash_parents(repo, ordered)
        == match repo.spec_octopus_base(bases) {
        Ok(base) => Ok(seq![base]),
        Err(stop) => Err(stop),
    } by {
        lemma_same_list(commits, bases, below);
    }
}

/// Whether there are ranges, and one commit lies below all of them.
pub open spec fn is_below_all(below: Seq<Option<ObjectId>>, commit: ObjectId) -> bool {
    &&& below.len() > 0
    &&& forall|k: int| 0 <= k < below.len() ==> #[trigger] below[k] == Some(commit)
}

/// Whether `bases` lists the commits that lie below ranges, each once, in the order in which they
/// occur first. All ranges have one.
pub open spec fn is_list_of(below: Seq<Option<ObjectId>>, bases: Seq<ObjectId>) -> bool {
    &&& forall|k: int| 0 <= k < below.len() ==> (#[trigger] below[k]) is Some
    &&& bases == distinct(Seq::new(below.len(), |k: int| below[k]->Some_0))
}

proof fn lemma_same_list(
    commits: Seq<ObjectId>,
    bases: Seq<ObjectId>,
    below: Seq<Option<ObjectId>>,
)
    requires
        is_list_of(below, bases),
        commits == below.map_values(|commit: Option<ObjectId>| commit->Some_0),
    ensures
        bases == distinct(commits),
{
    assert(commits =~= Seq::new(below.len(), |k: int| below[k]->Some_0));
}

/// Whether a run waits for no commit to be written.
pub open spec fn writes_nothing<T>(run: Run<T>) -> bool {
    run matches Run::Stopped(StopView::Pending(command)) ==> !(command is NewCommit)
}

proof fn lemma_selection_writes_nothing(
    replies: Seq<Reply>,
    at: nat,
    available: Seq<Edge>,
    wanted: Seq<Selector>,
    selected: Seq<Edge>,
)
    ensures
        writes_nothing(run_selection(replies, at, available, wanted, selected)),
    decreases wanted.len(),
{
    if wanted.len() > 0 && at < replies.len() {
        if let Reply::Node(node) = replies[at as int] {
            if let Some(edge) = first_edge_to(available, node) {
                lemma_selection_writes_nothing(
                    replies,
                    at + 1,
                    available,
                    wanted.drop_first(),
                    selected.push(edge),
                );
            }
        }
    }
}

proof fn lemma_selected_edges_write_nothing(
    replies: Seq<Reply>,
    at: nat,
    target: Selector,
    selectors: SelectorSetView,
    side: EdgeSelection,
)
    ensures
        writes_nothing(run_selected_edges(replies, at, target, selectors, side)),
{
    if at < replies.len() {
        if let Reply::Edges(available) = replies[at as int] {
            if let SelectorSetView::Only(wanted) = selectors {
                lemma_selection_writes_nothing(replies, at + 1, available@, wanted, Seq::empty());
            }
        }
    }
}

proof fn lemma_join_all_writes_nothing(
    replies: Seq<Reply>,
    at: nat,
    node: Selector,
    side: EdgeSelection,
    edges: Seq<Edge>,
    max: nat,
)
    ensures
        writes_nothing(run_join_all(replies, at, node, side, edges, max)),
    decreases edges.len(),
{
    if edges.len() > 0 {
        lemma_join_all_writes_nothing(replies, at + 1, node, side, edges.drop_first(), max);
    }
}

proof fn lemma_connect_writes_nothing(
    replies: Seq<Reply>,
    at: nat,
    segment: Segment,
    children: Seq<Edge>,
    parents: Seq<Edge>,
)
    ensures
        writes_nothing(run_connect(replies, at, segment, children, parents)),
{
    lemma_connect_side_writes_nothing(
        replies,
        at,
        segment.child,
        EdgeSelection::Children,
        children,
    );
    if let Run::Done { value: _, next } = run_connect_side(
        replies,
        at,
        segment.child,
        EdgeSelection::Children,
        children,
    ) {
        lemma_connect_side_writes_nothing(
            replies,
            next,
            segment.parent,
            EdgeSelection::Parents,
            parents,
        );
    }
}

proof fn lemma_connect_side_writes_nothing(
    replies: Seq<Reply>,
    at: nat,
    node: Selector,
    side: EdgeSelection,
    edges: Seq<Edge>,
)
    ensures
        writes_nothing(run_connect_side(replies, at, node, side, edges)),
{
    if at < replies.len() {
        if let Reply::Edges(present) = replies[at as int] {
            lemma_join_all_writes_nothing(
                replies,
                at + 1,
                node,
                side,
                edges,
                max_order(present@),
            );
        }
    }
}

proof fn lemma_chain_writes_nothing(
    replies: Seq<Reply>,
    at: nat,
    child: Selector,
    steps: Seq<Step>,
)
    ensures
        writes_nothing(run_chain(replies, at, child, steps)),
    decreases steps.len(),
{
    if steps.len() > 0 {
        if let Run::Done { value: parent, next } = run_append(replies, at, child, steps.first()) {
            lemma_chain_writes_nothing(replies, next, parent, steps.drop_first());
        }
    }
}

/// Whether a commit that is to be written is what a step leads to that squashes commits.
pub open spec fn is_for_step(
    repo: &Repository,
    replies: Seq<Reply>,
    step: IntegrationStepView,
    draft: CommitDraftView,
) -> bool {
    step matches IntegrationStepView::Squash { commits, message } && exists|
        at: nat,
        ordered: Seq<ObjectId>,
        next: nat,
    | #[trigger]
        leads_to_draft(repo, replies, at, commits, message, draft, ordered, next) && replies.len()
            == next + 1
}

/// An integration writes commits for its squashes only. Where it is to write one, the commit is of
/// the commits that one of its steps squashes, in order, and bears that step's message, marked if
/// their merge conflicts; it bears the message of the last of them only if the step has none.
pub proof fn law_integration_writes_its_squashes(
    repo: &Repository,
    replies: Seq<Reply>,
    at: nat,
    name: Seq<u8>,
    merge_base: ObjectId,
    steps: Seq<IntegrationStepView>,
    draft: CommitDraftView,
    dates: DateMode,
)
    requires
        awaits(
            run_integration(repo, replies, at, name, merge_base, steps),
            CommandView::NewCommit { draft, dates },
        ),
    ensures
        dates == DateMode::CommitterUpdateAuthorKeep,
        exists|j: int|
            0 <= j < steps.len() && is_for_step(repo, replies, #[trigger] steps[j], draft),
{
    let command = CommandView::NewCommit { draft, dates };
    let child = replies[at as int]->Node_0;
    let parent = replies[at as int + 1]->Node_0;
    let parents = replies[at as int + 2]->Neighbours_0;
    let present = Segment { child, parent };
    let run = run_replace(
        repo,
        replies,
        at + 3,
        name,
        merge_base,
        steps,
        present,
        parents@,
    );
    assert(awaits(run, command));
    lemma_selected_edges_write_nothing(
        replies,
        at + 3,
        child,
        SelectorSetView::All,
        EdgeSelection::Children,
    );
    if let Run::Done { value: above, next } = run_selected_edges(
        replies,
        at + 3,
        child,
        SelectorSetView::All,
        EdgeSelection::Children,
    ) {
        lemma_selected_edges_write_nothing(
            replies,
            next,
            parent,
            parents@,
            EdgeSelection::Parents,
        );
        if let Run::Done { value: below, next } = run_selected_edges(
            replies,
            next,
            parent,
            parents@,
            EdgeSelection::Parents,
        ) {
            let built = run_segment(repo, replies, next + 1, name, merge_base, steps);
            match built {
                Run::Done { value: segment, next } => {
                    lemma_connect_writes_nothing(replies, next, segment, above, below);
                },
                Run::Stopped(_) => {
                    assert(awaits(built, command));
                    lemma_segment_writes_squashes(
                        repo,
                        replies,
                        next + 1,
                        name,
                        merge_base,
                        steps,
                        draft,
                        dates,
                    );
                },
            }
        }
    }
}

proof fn lemma_segment_writes_squashes(
    repo: &Repository,
    replies: Seq<Reply>,
    at: nat,
    name: Seq<u8>,
    merge_base: ObjectId,
    steps: Seq<IntegrationStepView>,
    draft: CommitDraftView,
    dates: DateMode,
)
    requires
        awaits(
            run_segment(repo, replies, at, name, merge_base, steps),
            CommandView::NewCommit { draft, dates },
        ),
    ensures
        dates == DateMode::CommitterUpdateAuthorKeep,
        exists|j: int|
            0 <= j < steps.len() && is_for_step(repo, replies, #[trigger] steps[j], draft),
{
    match run_steps(repo, replies, at, steps, seq![Step::Reference]) {
        Run::Stopped(_) => {
            lemma_steps_write_squashes(
                repo,
                replies,
                at,
                steps,
                seq![Step::Reference],
                draft,
                dates,
            );
        },
        Run::Done { value: listed, next } => {
            let child = replies[next as int]->Node_0;
            let below = listed.skip(1);
            lemma_chain_writes_nothing(replies, next + 2, child, below);
            if let Run::Done { value: lowest, next } = run_chain(replies, next + 2, child, below) {
                assert(writes_nothing(run_append_base(replies, next, lowest, merge_base)));
            }
        },
    }
}

proof fn lemma_steps_write_squashes(
    repo: &Repository,
    replies: Seq<Reply>,
    at: nat,
    steps: Seq<IntegrationStepView>,
    segment: Seq<Step>,
    draft: CommitDraftView,
    dates: DateMode,
)
    requires
        awaits(
            run_steps(repo, replies, at, steps, segment),
            CommandView::NewCommit { draft, dates },
        ),
    ensures
        dates == DateMode::CommitterUpdateAuthorKeep,
        exists|j: int|
            0 <= j < steps.len() && is_for_step(repo, replies, #[trigger] steps[j], draft),
    decreases steps.len(),
{
    if steps.len() > 0 {
        match run_step(repo, replies, at, steps.last()) {
            Run::Stopped(_) => {
                law_written_commit_is_that_of_a_squash(
                    repo,
                    replies,
                    at,
                    steps.last(),
                    draft,
                    dates,
                );
                assert(is_for_step(repo, replies, steps[steps.len() - 1], draft));
            },
            Run::Done { value, next } => {
                let longer = match value {
                    Some(step) => segment.push(step),
                    None => segment,
                };
                let rest = steps.drop_last();
                lemma_steps_write_squashes(repo, replies, next, rest, longer, draft, dates);
                let j = choose|j: int|
                    0 <= j < rest.len() && is_for_step(repo, replies, #[trigger] rest[j], draft);
                assert(steps[j] == rest[j]);
            },
        }
    }
}

} // verus!

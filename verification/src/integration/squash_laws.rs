//! What holds of the commits that squashes make.
use crate::integration::editor::{
    commit_reply, maybe_node_reply, message_reply, nodes_reply, reply, CommandView,
    CommitDraftView, DateMode, Reply, Run, Selector, Step,
};
use crate::integration::squash::{
    all_below, all_found, recorded_outcome, run_commits_of, run_ordered, run_squash,
    run_squash_ordered, run_try_select_all, squash_parents,
};
use crate::merge::{force_ours, merge_outcome, outcome_of_commit};
use crate::merge_laws::law_merge_waits_for_no_editor;
use crate::object_id::{empty_tree, ObjectId};
use crate::plan::{
    below_range, below_ranges, chain_end, distinct, first_parent, lemma_ranges_are_change_ranges,
    plan, selected_parent,
};
use crate::plan_laws::{
    descend, is_below, is_chain, law_chain_is_planned_as_one_range,
    law_distinct_keeps_first_occurrences, law_every_selected_commit_is_in_a_range, ranked,
};
use crate::repository::{Repository, TreeKind};
use crate::stop::StopView;
use vstd::prelude::*;
use vstd::utf8::encode_utf8;

verus! {

/// The commit that a squash writes is like the last of the squashed commits, stands on
/// [`squash_parents`], gets a new committer date, and records their merge under the given message
/// or else under that of the last commit.
pub proof fn law_squash_records_the_merge(
    repo: &Repository,
    replies: Seq<Reply>,
    at: nat,
    commits: Seq<ObjectId>,
    message: Option<Seq<char>>,
    draft: CommitDraftView,
    dates: DateMode,
)
    requires
        run_squash(repo, replies, at, commits, message) == Run::<Step>::Stopped(
            StopView::Pending(CommandView::NewCommit { draft, dates }),
        ),
    ensures
        dates == DateMode::CommitterUpdateAuthorKeep,
        run_ordered(replies, at, commits) matches Run::Done { value: ordered, next } && {
            &&& ordered.len() > 0
            &&& draft.like == ordered.last()
            &&& squash_parents(repo, ordered) == Ok::<_, StopView>(draft.parents)
            &&& merge_outcome(repo, ordered, force_ours()) is Ok
            &&& message_reply(
                replies,
                next,
                CommandView::FindCommit { id: ordered.last() },
            ) matches Run::Done { value: tip_message, next: _ } && recorded_outcome(
                repo,
                merge_outcome(repo, ordered, force_ours())->Ok_0,
                match message {
                    Some(text) => encode_utf8(text),
                    None => tip_message,
                },
            ) == Ok::<_, StopView>((draft.tree, draft.message))
        },
{
    if let Run::Done { value: ordered, next: _ } = run_ordered(replies, at, commits) {
        law_merge_waits_for_no_editor(repo, ordered, force_ours());
        lemma_parents_wait_for_no_editor(repo, ordered);
    }
    lemma_try_select_all_gives_no_commit(replies, at, commits, Seq::empty());
    if let Run::Done { value: found, next } = run_try_select_all(
        replies,
        at,
        commits,
        Seq::empty(),
    ) {
        if let Run::Done { value: nodes, next } = nodes_reply(
            replies,
            next,
            CommandView::OrderByParentage {
                selectors: found.map_values(|node: Option<Selector>| node->Some_0),
            },
        ) {
            lemma_commits_of_gives_no_commit(replies, next, nodes, Seq::empty());
        }
    }
}

/// To find the parents of a squash waits for no editor.
proof fn lemma_parents_wait_for_no_editor(repo: &Repository, ordered: Seq<ObjectId>)
    ensures
        squash_parents(repo, ordered) matches Err(stop) ==> !(stop is Pending),
{
    law_merge_waits_for_no_editor(repo, ordered, force_ours());
}

/// Whether `lies_below` tells which commits lie below which in a history that was written commit
/// by commit: what lies below another commit is of lower rank, parents lie below their children,
/// and the merge base of commits is each of them or lies below it.
pub open spec fn describes_history(
    repo: &Repository,
    lies_below: spec_fn(ObjectId, ObjectId) -> bool,
    rank: spec_fn(ObjectId) -> nat,
) -> bool {
    &&& forall|a: ObjectId, b: ObjectId, c: ObjectId|
        #[trigger] lies_below(a, b) && #[trigger] lies_below(b, c) ==> lies_below(a, c)
    &&& forall|a: ObjectId, b: ObjectId| #[trigger] lies_below(a, b) ==> rank(a) < rank(b)
    &&& forall|child: ObjectId, k: int|
        #![trigger repo.spec_commit(child)->Ok_0.parents@[k]]
        repo.spec_commit(child) is Ok && 0 <= k < repo.spec_commit(child)->Ok_0.parents@.len()
            ==> lies_below(repo.spec_commit(child)->Ok_0.parents@[k], child)
    &&& forall|commits: Seq<ObjectId>, k: int|
        #![trigger repo.spec_octopus_base(commits), commits[k]]
        repo.spec_octopus_base(commits) is Ok && 0 <= k < commits.len() ==> {
            let base = repo.spec_octopus_base(commits)->Ok_0;
            base == commits[k] || lies_below(base, commits[k])
        }
}

/// A history that is described is one of falling ranks.
proof fn lemma_described_is_ranked(
    repo: &Repository,
    selected: Seq<ObjectId>,
    lies_below: spec_fn(ObjectId, ObjectId) -> bool,
    rank: spec_fn(ObjectId) -> nat,
)
    requires
        describes_history(repo, lies_below, rank),
    ensures
        ranked(repo, selected, rank),
        forall|commit: ObjectId|
            #![trigger first_parent(repo, commit)]
            first_parent(repo, commit) matches Ok(Some(parent)) ==> lies_below(parent, commit),
{
    assert forall|commit: ObjectId|
        #![trigger first_parent(repo, commit)]
        first_parent(repo, commit) matches Ok(Some(parent)) implies lies_below(
        first_parent(repo, commit)->Ok_0->Some_0,
        commit,
    ) by {
        assert(repo.spec_commit(commit)->Ok_0.parents@[0] == first_parent(
            repo,
            commit,
        )->Ok_0->Some_0);
    }
    assert forall|commit: ObjectId|
        #![trigger selected_parent(repo, selected, commit)]
        selected_parent(repo, selected, commit) matches Some(parent) implies rank(
        selected_parent(repo, selected, commit)->Some_0,
    ) < rank(commit) by {
        assert(first_parent(repo, commit)->Ok_0 == selected_parent(repo, selected, commit));
    }
}

/// The end of a chain is each commit of the chain or lies below it, and is a root if one of them
/// is.
proof fn lemma_chain_end_lies_below(
    repo: &Repository,
    selected: Seq<ObjectId>,
    tip: ObjectId,
    steps: nat,
    n: nat,
    lies_below: spec_fn(ObjectId, ObjectId) -> bool,
    rank: spec_fn(ObjectId) -> nat,
)
    requires
        describes_history(repo, lies_below, rank),
        chain_end(repo, selected, tip, steps) is Some,
        descend(repo, selected, tip, n) is Some,
    ensures
        ({
            let lowest = chain_end(repo, selected, tip, steps)->Some_0;
            let commit = descend(repo, selected, tip, n)->Some_0;
            &&& lowest == commit || lies_below(lowest, commit)
            &&& selected_parent(repo, selected, commit) is None ==> lowest == commit
        }),
    decreases steps, n,
{
    lemma_described_is_ranked(repo, selected, lies_below, rank);
    match selected_parent(repo, selected, tip) {
        None => {},
        Some(parent) => {
            assert(first_parent(repo, tip)->Ok_0 == Some(parent));
            let rest = (steps - 1) as nat;
            if n > 0 {
                lemma_chain_end_lies_below(
                    repo,
                    selected,
                    parent,
                    rest,
                    (n - 1) as nat,
                    lies_below,
                    rank,
                );
            } else {
                lemma_chain_end_lies_below(repo, selected, parent, rest, 0, lies_below, rank);
                assert(lies_below(parent, tip));
            }
        },
    }
}

/// The range that holds a squashed commit, and the commit below that range.
proof fn lemma_range_of(
    repo: &Repository,
    ordered: Seq<ObjectId>,
    lies_below: spec_fn(ObjectId, ObjectId) -> bool,
    rank: spec_fn(ObjectId) -> nat,
    commit: ObjectId,
) -> (i: int)
    requires
        describes_history(repo, lies_below, rank),
        plan(repo, ordered) is Ok,
        ordered.contains(commit),
    ensures
        0 <= i < below_ranges(repo, ordered)->Ok_0.len(),
        below_ranges(repo, ordered)->Ok_0[i] matches Some(parent) ==> lies_below(parent, commit),
        first_parent(repo, commit) == Ok::<_, StopView>(None::<ObjectId>) ==> below_ranges(
            repo,
            ordered,
        )->Ok_0[i] is None,
{
    let selected = distinct(ordered);
    let ranges = plan(repo, ordered)->Ok_0;
    lemma_described_is_ranked(repo, selected, lies_below, rank);
    law_every_selected_commit_is_in_a_range(repo, ordered, rank, commit);
    let i = choose|i: int|
        0 <= i < ranges.len() && is_below(
            repo,
            selected,
            #[trigger] ranges[i].commit_id,
            commit,
        );
    let tip = ranges[i].commit_id;
    lemma_ranges_are_change_ranges(repo, selected, selected, i);
    let n = choose|n: nat| #[trigger] descend(repo, selected, tip, n) == Some(commit);
    lemma_chain_end_lies_below(repo, selected, tip, selected.len(), n, lies_below, rank);
    let lowest = chain_end(repo, selected, tip, selected.len())->Some_0;
    assert(below_ranges(repo, ordered)->Ok_0[i] == below_range(repo, selected, tip));
    if let Some(parent) = below_range(repo, selected, tip) {
        assert(first_parent(repo, lowest) == Ok::<_, StopView>(Some(parent)));
        assert(lies_below(parent, lowest));
    }
    i
}

/// The parent of a squash lies below every squashed commit, and so is none of them.
pub proof fn law_squash_stands_below_its_commits(
    repo: &Repository,
    ordered: Seq<ObjectId>,
    lies_below: spec_fn(ObjectId, ObjectId) -> bool,
    rank: spec_fn(ObjectId) -> nat,
)
    requires
        describes_history(repo, lies_below, rank),
        squash_parents(repo, ordered) is Ok,
    ensures
        squash_parents(repo, ordered)->Ok_0.len() <= 1,
        forall|k: int, commit: ObjectId|
            #![trigger squash_parents(repo, ordered)->Ok_0[k], ordered.contains(commit)]
            0 <= k < squash_parents(repo, ordered)->Ok_0.len() && ordered.contains(commit)
                ==> lies_below(squash_parents(repo, ordered)->Ok_0[k], commit)
                && squash_parents(repo, ordered)->Ok_0[k] != commit,
{
    let parents = squash_parents(repo, ordered)->Ok_0;
    let below = below_ranges(repo, ordered)->Ok_0;
    if all_below(below) {
        let commits = below.map_values(|commit: Option<ObjectId>| commit->Some_0);
        let base = parents[0];
        law_distinct_keeps_first_occurrences(commits);
        assert forall|k: int, commit: ObjectId|
            #![trigger parents[k], ordered.contains(commit)]
            0 <= k < parents.len() && ordered.contains(commit) implies lies_below(
            parents[k],
            commit,
        ) && parents[k] != commit by {
            let i = lemma_range_of(repo, ordered, lies_below, rank, commit);
            assert(below[i] is Some);
            let parent = below[i]->Some_0;
            assert(commits[i] == parent);
            assert(commits.contains(parent));
            assert(distinct(commits).contains(parent));
            let m = choose|m: int|
                0 <= m < distinct(commits).len() && distinct(commits)[m] == parent;
            assert(base == distinct(commits)[m] || lies_below(base, distinct(commits)[m]));
            assert(lies_below(base, commit));
        }
    }
}

/// A squash has no parent exactly if one of the squashed commits is a root.
pub proof fn law_only_a_squashed_root_leaves_no_parent(
    repo: &Repository,
    ordered: Seq<ObjectId>,
    lies_below: spec_fn(ObjectId, ObjectId) -> bool,
    rank: spec_fn(ObjectId) -> nat,
)
    requires
        describes_history(repo, lies_below, rank),
        squash_parents(repo, ordered) is Ok,
    ensures
        squash_parents(repo, ordered)->Ok_0.len() == 0 <==> exists|commit: ObjectId|
            #[trigger] ordered.contains(commit) && first_parent(repo, commit) == Ok::<
                _,
                StopView,
            >(None::<ObjectId>),
{
    let selected = distinct(ordered);
    let below = below_ranges(repo, ordered)->Ok_0;
    let ranges = plan(repo, ordered)->Ok_0;
    if !all_below(below) {
        let k = choose|k: int| 0 <= k < below.len() && !((#[trigger] below[k]) is Some);
        let tip = ranges[k].commit_id;
        assert(below[k] == below_range(repo, selected, tip));
        lemma_ranges_are_change_ranges(repo, selected, selected, k);
        let lowest = chain_end(repo, selected, tip, selected.len())->Some_0;
        lemma_chain_stays_selected(repo, selected, tip, selected.len());
        law_distinct_keeps_first_occurrences(ordered);
        assert(ordered.contains(lowest));
        assert(first_parent(repo, lowest) == Ok::<_, StopView>(None::<ObjectId>));
    }
    if exists|commit: ObjectId|
        #[trigger] ordered.contains(commit) && first_parent(repo, commit) == Ok::<_, StopView>(
            None::<ObjectId>,
        ) {
        let commit = choose|commit: ObjectId|
            #[trigger] ordered.contains(commit) && first_parent(repo, commit) == Ok::<
                _,
                StopView,
            >(None::<ObjectId>);
        let i = lemma_range_of(repo, ordered, lies_below, rank, commit);
        assert(!(below[i] is Some));
    }
}

/// Whether a commit is another one or lies below it.
pub open spec fn at_or_below(
    lies_below: spec_fn(ObjectId, ObjectId) -> bool,
    commit: ObjectId,
    other: ObjectId,
) -> bool {
    commit == other || lies_below(commit, other)
}

/// Whether a commit is each of several or lies below it.
pub open spec fn at_or_below_all(
    lies_below: spec_fn(ObjectId, ObjectId) -> bool,
    commit: ObjectId,
    others: Seq<ObjectId>,
) -> bool {
    forall|k: int| 0 <= k < others.len() ==> at_or_below(lies_below, commit, #[trigger] others[k])
}

/// Whether the merge base of commits is the best there is: all that their histories share is the
/// merge base or lies below it.
pub open spec fn bases_are_best(
    repo: &Repository,
    lies_below: spec_fn(ObjectId, ObjectId) -> bool,
) -> bool {
    forall|commits: Seq<ObjectId>, commit: ObjectId|
        #![trigger repo.spec_octopus_base(commits), at_or_below_all(lies_below, commit, commits)]
        repo.spec_octopus_base(commits) is Ok && at_or_below_all(lies_below, commit, commits)
            ==> at_or_below(lies_below, commit, repo.spec_octopus_base(commits)->Ok_0)
}

/// Whether a commit has one parent, so that what lies below it is the parent or lies below that.
pub open spec fn has_one_parent(
    repo: &Repository,
    lies_below: spec_fn(ObjectId, ObjectId) -> bool,
    commit: ObjectId,
) -> bool {
    &&& repo.spec_commit(commit) is Ok
    &&& repo.spec_commit(commit)->Ok_0.parents@.len() == 1
    &&& forall|other: ObjectId| #[trigger]
        lies_below(other, commit) ==> at_or_below(
            lies_below,
            other,
            repo.spec_commit(commit)->Ok_0.parents@[0],
        )
}

/// Where no squashed commit lies below another, the commit below the range of each is its parent.
proof fn lemma_ranges_of_one_commit(
    repo: &Repository,
    ordered: Seq<ObjectId>,
    lies_below: spec_fn(ObjectId, ObjectId) -> bool,
    rank: spec_fn(ObjectId) -> nat,
    i: int,
)
    requires
        describes_history(repo, lies_below, rank),
        plan(repo, ordered) is Ok,
        0 <= i < below_ranges(repo, ordered)->Ok_0.len(),
        forall|a: ObjectId, b: ObjectId|
            #![trigger ordered.contains(a), ordered.contains(b)]
            ordered.contains(a) && ordered.contains(b) ==> !lies_below(a, b),
    ensures
        ordered.contains(plan(repo, ordered)->Ok_0[i].commit_id),
        first_parent(repo, plan(repo, ordered)->Ok_0[i].commit_id) == Ok::<_, StopView>(
            below_ranges(repo, ordered)->Ok_0[i],
        ),
{
    let selected = distinct(ordered);
    let tip = plan(repo, ordered)->Ok_0[i].commit_id;
    lemma_ranges_are_change_ranges(repo, selected, selected, i);
    law_distinct_keeps_first_occurrences(ordered);
    lemma_described_is_ranked(repo, selected, lies_below, rank);
    assert(ordered.contains(tip));
    if let Some(parent) = selected_parent(repo, selected, tip) {
        assert(first_parent(repo, tip) == Ok::<_, StopView>(Some(parent)));
        assert(lies_below(parent, tip));
        assert(ordered.contains(parent));
        assert(false);
    }
    assert(chain_end(repo, selected, tip, selected.len()) == Some(tip));
    assert(below_ranges(repo, ordered)->Ok_0[i] == below_range(repo, selected, tip));
}

/// Where squashed commits of one parent each do not lie below one another, the parent of the
/// squash is the merge base that the commits themselves share.
pub proof fn law_squash_of_separate_commits_stands_on_their_merge_base(
    repo: &Repository,
    ordered: Seq<ObjectId>,
    lies_below: spec_fn(ObjectId, ObjectId) -> bool,
    rank: spec_fn(ObjectId) -> nat,
    base: ObjectId,
)
    requires
        describes_history(repo, lies_below, rank),
        bases_are_best(repo, lies_below),
        forall|commit: ObjectId| #[trigger]
            ordered.contains(commit) ==> has_one_parent(repo, lies_below, commit),
        forall|a: ObjectId, b: ObjectId|
            #![trigger ordered.contains(a), ordered.contains(b)]
            ordered.contains(a) && ordered.contains(b) ==> !lies_below(a, b),
        distinct(ordered).len() >= 2,
        repo.spec_octopus_base(ordered) == Ok::<_, StopView>(base),
        squash_parents(repo, ordered) is Ok,
    ensures
        squash_parents(repo, ordered) == Ok::<_, StopView>(seq![base]),
{
    let below = below_ranges(repo, ordered)->Ok_0;
    let ranges = plan(repo, ordered)->Ok_0;
    let parents = squash_parents(repo, ordered)->Ok_0;
    assert forall|i: int| 0 <= i < below.len() implies (#[trigger] below[i]) is Some by {
        lemma_ranges_of_one_commit(repo, ordered, lies_below, rank, i);
        assert(has_one_parent(repo, lies_below, ranges[i].commit_id));
    }
    assert(all_below(below));
    let commits = below.map_values(|commit: Option<ObjectId>| commit->Some_0);
    let parent = parents[0];
    // What the squash stands on is shared by all commits.
    law_squash_stands_below_its_commits(repo, ordered, lies_below, rank);
    assert forall|k: int| 0 <= k < ordered.len() implies at_or_below(
        lies_below,
        parent,
        #[trigger] ordered[k],
    ) by {
        assert(ordered.contains(ordered[k]));
        assert(lies_below(parents[0], ordered[k]));
    }
    assert(at_or_below_all(lies_below, parent, ordered));
    assert(at_or_below(lies_below, parent, base));
    // The merge base of the commits is none of them, and so is shared by what lies below them.
    lemma_base_is_no_commit(repo, ordered, lies_below, rank, base);
    law_distinct_keeps_first_occurrences(commits);
    assert forall|m: int| 0 <= m < distinct(commits).len() implies at_or_below(
        lies_below,
        base,
        #[trigger] distinct(commits)[m],
    ) by {
        assert(distinct(commits).contains(distinct(commits)[m]));
        assert(commits.contains(distinct(commits)[m]));
        let i = choose|i: int| 0 <= i < commits.len() && commits[i] == distinct(commits)[m];
        lemma_ranges_of_one_commit(repo, ordered, lies_below, rank, i);
        let tip = ranges[i].commit_id;
        assert(has_one_parent(repo, lies_below, tip));
        assert(lies_below(base, tip));
        assert(first_parent(repo, tip) == Ok::<_, StopView>(below[i]));
        assert(commits[i] == repo.spec_commit(tip)->Ok_0.parents@[0]);
    }
    assert(at_or_below_all(lies_below, base, distinct(commits)));
    if distinct(commits).len() == 1 {
        assert(at_or_below(lies_below, base, distinct(commits)[0]));
    }
    assert(at_or_below(lies_below, base, parent));
    assert(base == parent);
    assert(parents =~= seq![base]);
}

/// The merge base of commits that do not lie below one another lies below each of them.
proof fn lemma_base_is_no_commit(
    repo: &Repository,
    ordered: Seq<ObjectId>,
    lies_below: spec_fn(ObjectId, ObjectId) -> bool,
    rank: spec_fn(ObjectId) -> nat,
    base: ObjectId,
)
    requires
        describes_history(repo, lies_below, rank),
        forall|a: ObjectId, b: ObjectId|
            #![trigger ordered.contains(a), ordered.contains(b)]
            ordered.contains(a) && ordered.contains(b) ==> !lies_below(a, b),
        distinct(ordered).len() >= 2,
        repo.spec_octopus_base(ordered) == Ok::<_, StopView>(base),
    ensures
        forall|commit: ObjectId| #[trigger] ordered.contains(commit) ==> lies_below(base, commit),
{
    law_distinct_keeps_first_occurrences(ordered);
    let (one, two) = (distinct(ordered)[0], distinct(ordered)[1]);
    assert(distinct(ordered).contains(one) && distinct(ordered).contains(two));
    assert(ordered.contains(one) && ordered.contains(two) && one != two);
    assert forall|commit: ObjectId| #[trigger] ordered.contains(commit) implies base == commit
        || lies_below(base, commit) by {
        let k = choose|k: int| 0 <= k < ordered.len() && ordered[k] == commit;
        assert(repo.spec_octopus_base(ordered)->Ok_0 == base);
        assert(base == ordered[k] || lies_below(base, ordered[k]));
    }
    if ordered.contains(base) {
        assert(base == one && base == two);
    }
}

/// A chain of selected first parents ends with a selected commit.
proof fn lemma_chain_stays_selected(
    repo: &Repository,
    selected: Seq<ObjectId>,
    tip: ObjectId,
    steps: nat,
)
    requires
        selected.contains(tip),
        chain_end(repo, selected, tip, steps) is Some,
    ensures
        selected.contains(chain_end(repo, selected, tip, steps)->Some_0),
    decreases steps,
{
    if let Some(parent) = selected_parent(repo, selected, tip) {
        lemma_chain_stays_selected(repo, selected, parent, (steps - 1) as nat);
    }
}

/// A squash of commits of which each stands on the one before changes what they change together:
/// it has the tree of the last, and its parent is the commit below the first, from whose tree the
/// range of the whole chain is measured. If the first is a root, the squash is one too.
pub proof fn law_squash_of_a_chain_changes_what_the_chain_changes(
    repo: &Repository,
    ordered: Seq<ObjectId>,
)
    requires
        is_chain(repo, ordered),
        plan(repo, ordered) is Ok,
    ensures
        merge_outcome(repo, ordered, force_ours()) == outcome_of_commit(repo, ordered.last()),
        plan(repo, ordered)->Ok_0.len() == 1,
        match first_parent(repo, ordered[0]) {
            Ok(Some(parent)) => {
                &&& squash_parents(repo, ordered) == Ok::<_, StopView>(seq![parent])
                &&& repo.spec_tree(parent, TreeKind::AutoResolution) == Ok::<_, StopView>(
                    plan(repo, ordered)->Ok_0[0].base_tree_id,
                )
            },
            Ok(None) => {
                &&& squash_parents(repo, ordered) == Ok::<_, StopView>(Seq::<ObjectId>::empty())
                &&& plan(repo, ordered)->Ok_0[0].base_tree_id == empty_tree()
            },
            Err(_) => false,
        },
{
    law_chain_is_planned_as_one_range(repo, ordered);
    let below = below_ranges(repo, ordered)->Ok_0;
    assert(below =~= seq![below_range(repo, ordered, ordered.last())]);
    if let Some(parent) = below_range(repo, ordered, ordered.last()) {
        let commits = below.map_values(|commit: Option<ObjectId>| commit->Some_0);
        assert(commits =~= seq![parent]);
        assert(commits.drop_last() =~= Seq::<ObjectId>::empty());
        assert(distinct(commits.drop_last()) =~= Seq::<ObjectId>::empty());
        assert(distinct(commits) =~= seq![parent]);
        assert(all_below(below));
    } else {
        assert(!(below[0] is Some));
    }
}

/// Whether two lists of replies go on alike.
pub open spec fn go_on_alike(
    replies: Seq<Reply>,
    at: nat,
    other_replies: Seq<Reply>,
    other_at: nat,
) -> bool {
    &&& at <= replies.len()
    &&& other_at <= other_replies.len()
    &&& replies.skip(at as int) == other_replies.skip(other_at as int)
}

/// Whether two runs come to the same: the same value, after which their replies go on alike, or
/// the same stop.
pub open spec fn come_to_the_same<T>(
    run: Run<T>,
    replies: Seq<Reply>,
    other: Run<T>,
    other_replies: Seq<Reply>,
) -> bool {
    match run {
        Run::Stopped(_) => run == other,
        Run::Done { value, next } => other matches Run::Done {
            value: other_value,
            next: other_next,
        } && value == other_value && go_on_alike(replies, next, other_replies, other_next),
    }
}

/// Replies that go on alike begin with the same reply, and go on alike after it.
proof fn lemma_same_reply(
    replies: Seq<Reply>,
    at: nat,
    other_replies: Seq<Reply>,
    other_at: nat,
)
    requires
        go_on_alike(replies, at, other_replies, other_at),
    ensures
        reply(replies, at) == reply(other_replies, other_at),
        reply(replies, at) is Some ==> go_on_alike(
            replies,
            at + 1,
            other_replies,
            other_at + 1,
        ),
{
    let rest = replies.skip(at as int);
    let other_rest = other_replies.skip(other_at as int);
    assert(rest.len() == other_rest.len());
    if at < replies.len() {
        assert(rest[0] == replies[at as int]);
        assert(other_rest[0] == other_replies[other_at as int]);
        assert(replies.skip(at as int + 1) =~= rest.skip(1));
        assert(other_replies.skip(other_at as int + 1) =~= other_rest.skip(1));
    }
}

proof fn lemma_same_commits_of(
    replies: Seq<Reply>,
    at: nat,
    other_replies: Seq<Reply>,
    other_at: nat,
    nodes: Seq<Selector>,
    found: Seq<ObjectId>,
)
    requires
        go_on_alike(replies, at, other_replies, other_at),
    ensures
        come_to_the_same(
            run_commits_of(replies, at, nodes, found),
            replies,
            run_commits_of(other_replies, other_at, nodes, found),
            other_replies,
        ),
    decreases nodes.len(),
{
    lemma_same_reply(replies, at, other_replies, other_at);
    if nodes.len() > 0 {
        if let Run::Done { value, next } = commit_reply(
            replies,
            at,
            CommandView::FindSelectableCommit { selector: nodes.first() },
        ) {
            lemma_same_commits_of(
                replies,
                next,
                other_replies,
                other_at + 1,
                nodes.drop_first(),
                found.push(value),
            );
        }
    }
}

proof fn lemma_same_squash_of_ordered(
    repo: &Repository,
    replies: Seq<Reply>,
    at: nat,
    other_replies: Seq<Reply>,
    other_at: nat,
    ordered: Seq<ObjectId>,
    message: Option<Seq<char>>,
)
    requires
        go_on_alike(replies, at, other_replies, other_at),
    ensures
        come_to_the_same(
            run_squash_ordered(repo, replies, at, ordered, message),
            replies,
            run_squash_ordered(repo, other_replies, other_at, ordered, message),
            other_replies,
        ),
{
    lemma_same_reply(replies, at, other_replies, other_at);
    if reply(replies, at) is Some {
        lemma_same_reply(replies, at + 1, other_replies, other_at + 1);
    }
}

/// The order in which commits of the graph are named does not matter to a squash: two lists that
/// the graph editor puts into the same order come to the same step, by the same commands from
/// then on.
pub proof fn law_order_of_naming_does_not_matter(
    repo: &Repository,
    replies: Seq<Reply>,
    at: nat,
    commits: Seq<ObjectId>,
    other_replies: Seq<Reply>,
    other_at: nat,
    other_commits: Seq<ObjectId>,
    message: Option<Seq<char>>,
)
    requires
        commits.len() >= 2,
        other_commits.len() >= 2,
        run_try_select_all(replies, at, commits, Seq::empty()) matches Run::Done {
            value: found,
            next,
        } && all_found(found) && next < replies.len(),
        run_try_select_all(
            other_replies,
            other_at,
            other_commits,
            Seq::empty(),
        ) matches Run::Done { value: found, next } && all_found(found),
        go_on_alike(
            replies,
            run_try_select_all(replies, at, commits, Seq::empty())->next,
            other_replies,
            run_try_select_all(other_replies, other_at, other_commits, Seq::empty())->next,
        ),
    ensures
        come_to_the_same(
            run_squash(repo, replies, at, commits, message),
            replies,
            run_squash(repo, other_replies, other_at, other_commits, message),
            other_replies,
        ),
{
    let next = run_try_select_all(replies, at, commits, Seq::empty())->next;
    let other_next = run_try_select_all(
        other_replies,
        other_at,
        other_commits,
        Seq::empty(),
    )->next;
    lemma_same_reply(replies, next, other_replies, other_next);
    if let Reply::Nodes(nodes) = replies[next as int] {
        lemma_same_commits_of(
            replies,
            next + 1,
            other_replies,
            other_next + 1,
            nodes@,
            Seq::empty(),
        );
        if let Run::Done { value: ordered, next: ordered_at } = run_commits_of(
            replies,
            next + 1,
            nodes@,
            Seq::empty(),
        ) {
            let other_ordered_at = run_commits_of(
                other_replies,
                other_next + 1,
                nodes@,
                Seq::empty(),
            )->next;
            lemma_same_squash_of_ordered(
                repo,
                replies,
                ordered_at,
                other_replies,
                other_ordered_at,
                ordered,
                message,
            );
        }
    }
}

/// To look nodes up is not to write a commit.
proof fn lemma_try_select_all_gives_no_commit(
    replies: Seq<Reply>,
    at: nat,
    commits: Seq<ObjectId>,
    found: Seq<Option<Selector>>,
)
    ensures
        !(run_try_select_all(replies, at, commits, found) matches Run::Stopped(
            StopView::Pending(CommandView::NewCommit { .. }),
        )),
    decreases commits.len(),
{
    if commits.len() > 0 {
        if let Run::Done { value, next } = maybe_node_reply(
            replies,
            at,
            CommandView::TrySelectCommit { id: commits.first() },
        ) {
            lemma_try_select_all_gives_no_commit(
                replies,
                next,
                commits.drop_first(),
                found.push(value),
            );
        }
    }
}

/// To look commits up is not to write a commit.
proof fn lemma_commits_of_gives_no_commit(
    replies: Seq<Reply>,
    at: nat,
    nodes: Seq<Selector>,
    found: Seq<ObjectId>,
)
    ensures
        !(run_commits_of(replies, at, nodes, found) matches Run::Stopped(
            StopView::Pending(CommandView::NewCommit { .. }),
        )),
    decreases nodes.len(),
{
    if nodes.len() > 0 {
        if let Run::Done { value, next } = commit_reply(
            replies,
            at,
            CommandView::FindSelectableCommit { selector: nodes.first() },
        ) {
            lemma_commits_of_gives_no_commit(
                replies,
                next,
                nodes.drop_first(),
                found.push(value),
            );
        }
    }
}

} // verus!

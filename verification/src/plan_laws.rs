//! What holds of every plan.
use crate::object_id::{empty_tree, ObjectId};
use crate::plan::{
    below_range, below_ranges, chain_end, change_range, change_ranges, commits_read, distinct,
    first_parent, is_tip, lemma_ranges_are_change_ranges, plan, range_tips, selected_parent,
    PlannedCommitChange,
};
use crate::repository::{Repository, TreeKind};
use crate::stop::{FailureView, StopView};
use vstd::prelude::*;

verus! {

/// Whether `a` occurs in `ids` before the first occurrence of `b`.
pub open spec fn occurs_before(ids: Seq<ObjectId>, a: ObjectId, b: ObjectId) -> bool {
    exists|k: int|
        0 <= k < ids.len() && #[trigger] ids[k] == a && forall|l: int| 0 <= l <= k ==> ids[l] != b
}

/// Deduplication keeps every id once, and keeps the order of first occurrences.
pub proof fn law_distinct_keeps_first_occurrences(ids: Seq<ObjectId>)
    ensures
        distinct(ids).no_duplicates(),
        forall|id: ObjectId| distinct(ids).contains(id) <==> ids.contains(id),
        forall|i: int, j: int|
            0 <= i < j < distinct(ids).len() ==> occurs_before(
                ids,
                #[trigger] distinct(ids)[i],
                #[trigger] distinct(ids)[j],
            ),
    decreases ids.len(),
{
    if ids.len() > 0 {
        let before = ids.drop_last();
        law_distinct_keeps_first_occurrences(before);
        let d = distinct(before);
        assert forall|id: ObjectId| distinct(ids).contains(id) <==> ids.contains(id) by {
            if ids.contains(id) {
                let k = choose|k: int| 0 <= k < ids.len() && ids[k] == id;
                if k < ids.len() - 1 {
                    assert(before[k] == id);
                    assert(before.contains(id));
                    assert(d.contains(id));
                    let m = choose|m: int| 0 <= m < d.len() && d[m] == id;
                    assert(distinct(ids)[m] == id);
                } else if !d.contains(id) {
                    assert(distinct(ids)[d.len() as int] == id);
                }
            }
            if distinct(ids).contains(id) {
                let m = choose|m: int| 0 <= m < distinct(ids).len() && distinct(ids)[m] == id;
                if m < d.len() {
                    assert(d[m] == id);
                    assert(before.contains(id));
                    let k = choose|k: int| 0 <= k < before.len() && before[k] == id;
                    assert(ids[k] == id);
                } else {
                    assert(ids[ids.len() - 1] == id);
                }
            }
        }
        assert forall|i: int, j: int| 0 <= i < j < distinct(ids).len() implies occurs_before(
            ids,
            #[trigger] distinct(ids)[i],
            #[trigger] distinct(ids)[j],
        ) by {
            let a = distinct(ids)[i];
            let b = distinct(ids)[j];
            assert(d[i] == a);
            if j < d.len() {
                assert(d[j] == b);
                assert(occurs_before(before, a, b));
                let k = choose|k: int|
                    0 <= k < before.len() && #[trigger] before[k] == a && forall|l: int|
                        0 <= l <= k ==> before[l] != b;
                assert(ids[k] == a);
                assert forall|l: int| 0 <= l <= k implies ids[l] != b by {
                    assert(before[l] != b);
                }
            } else {
                assert(b == ids.last());
                assert(!d.contains(b));
                assert(d.contains(a));
                assert(before.contains(a));
                let k = choose|k: int| 0 <= k < before.len() && before[k] == a;
                assert(ids[k] == a);
                assert forall|l: int| 0 <= l <= k implies ids[l] != b by {
                    if before[l] == b {
                        assert(before.contains(b));
                    }
                }
            }
        }
    }
}

/// Ids without duplicates are their own deduplication.
proof fn lemma_distinct_of_distinct(ids: Seq<ObjectId>)
    requires
        ids.no_duplicates(),
    ensures
        distinct(ids) == ids,
    decreases ids.len(),
{
    if ids.len() > 0 {
        let before = ids.drop_last();
        lemma_distinct_of_distinct(before);
        assert(!before.contains(ids.last()));
        assert(before.push(ids.last()) =~= ids);
    }
}

/// Selecting a commit twice is the same as selecting it once.
pub proof fn law_duplicates_are_ignored(repo: &Repository, commit_ids: Seq<ObjectId>)
    ensures
        plan(repo, distinct(commit_ids)) == plan(repo, commit_ids),
{
    law_distinct_keeps_first_occurrences(commit_ids);
    lemma_distinct_of_distinct(distinct(commit_ids));
}

/// Exactly the selected commits that are no first parent of another selected one are planned, in
/// the order in which they were selected first.
pub proof fn law_tips_are_planned_in_order(repo: &Repository, commit_ids: Seq<ObjectId>)
    requires
        plan(repo, commit_ids) is Ok,
    ensures
        range_tips(plan(repo, commit_ids)->Ok_0) == distinct(commit_ids).filter(
            |commit: ObjectId| is_tip(repo, distinct(commit_ids), commit),
        ),
{
    lemma_range_tips(repo, distinct(commit_ids), distinct(commit_ids));
}

proof fn lemma_range_tips(repo: &Repository, selected: Seq<ObjectId>, candidates: Seq<ObjectId>)
    requires
        change_ranges(repo, selected, candidates) is Ok,
    ensures
        range_tips(change_ranges(repo, selected, candidates)->Ok_0) == candidates.filter(
            |commit: ObjectId| is_tip(repo, selected, commit),
        ),
    decreases candidates.len(),
{
    reveal(Seq::filter);
    let ranges = change_ranges(repo, selected, candidates)->Ok_0;
    if candidates.len() > 0 {
        lemma_range_tips(repo, selected, candidates.drop_last());
        let before = change_ranges(repo, selected, candidates.drop_last())->Ok_0;
        if is_tip(repo, selected, candidates.last()) {
            assert(range_tips(ranges) =~= range_tips(before).push(candidates.last()));
        }
    } else {
        assert(range_tips(ranges) =~= Seq::empty());
    }
}

/// The commit that is reached from another through `n` selected first parents.
pub open spec fn descend(
    repo: &Repository,
    selected: Seq<ObjectId>,
    commit: ObjectId,
    n: nat,
) -> Option<ObjectId>
    decreases n,
{
    if n == 0 {
        Some(commit)
    } else {
        match selected_parent(repo, selected, commit) {
            None => None,
            Some(parent) => descend(repo, selected, parent, (n - 1) as nat),
        }
    }
}

/// Whether a range reaches from its tip through `n` selected first parents down to a commit whose
/// first parent is not selected, and is measured from that parent's tree, or from the empty tree
/// where there is no parent.
pub open spec fn reaches_down(
    repo: &Repository,
    selected: Seq<ObjectId>,
    range: PlannedCommitChange,
    n: nat,
) -> bool {
    match descend(repo, selected, range.commit_id, n) {
        None => false,
        Some(lowest) => match first_parent(repo, lowest) {
            Ok(None) => range.base_tree_id == empty_tree(),
            Ok(Some(parent)) => {
                &&& !selected.contains(parent)
                &&& repo.spec_tree(parent, TreeKind::AutoResolution) == Ok::<ObjectId, StopView>(
                    range.base_tree_id,
                )
            },
            Err(_) => false,
        },
    }
}

/// A planned range holds a whole chain of selected first parents, and what unselected ancestors
/// changed is not part of it.
pub proof fn law_range_is_measured_from_first_unselected_parent(
    repo: &Repository,
    commit_ids: Seq<ObjectId>,
    i: int,
)
    requires
        plan(repo, commit_ids) is Ok,
        0 <= i < plan(repo, commit_ids)->Ok_0.len(),
    ensures
        exists|n: nat|
            #[trigger] reaches_down(
                repo,
                distinct(commit_ids),
                plan(repo, commit_ids)->Ok_0[i],
                n,
            ),
{
    let selected = distinct(commit_ids);
    lemma_ranges_are_change_ranges(repo, selected, selected, i);
    let range = plan(repo, commit_ids)->Ok_0[i];
    let n = lemma_chain_end_is_reached(repo, selected, range.commit_id, selected.len());
    assert(reaches_down(repo, selected, range, n));
}

proof fn lemma_chain_end_is_reached(
    repo: &Repository,
    selected: Seq<ObjectId>,
    commit: ObjectId,
    steps: nat,
) -> (n: nat)
    requires
        chain_end(repo, selected, commit, steps) is Some,
    ensures
        n <= steps,
        descend(repo, selected, commit, n) == chain_end(repo, selected, commit, steps),
        selected_parent(repo, selected, chain_end(repo, selected, commit, steps)->Some_0) is None,
    decreases steps,
{
    match selected_parent(repo, selected, commit) {
        None => 0,
        Some(parent) => {
            let m = lemma_chain_end_is_reached(repo, selected, parent, (steps - 1) as nat);
            m + 1
        },
    }
}

/// Whether first parents always lead from a commit to one of lower rank, as in every history that
/// was written commit by commit.
pub open spec fn ranked(
    repo: &Repository,
    selected: Seq<ObjectId>,
    rank: spec_fn(ObjectId) -> nat,
) -> bool {
    forall|commit: ObjectId|
        #![trigger selected_parent(repo, selected, commit)]
        selected_parent(repo, selected, commit) matches Some(parent) ==> rank(parent) < rank(
            commit,
        )
}

/// In a history that was written commit by commit, a plan is never refused: it is made, or
/// something has to be read first.
pub proof fn law_plan_stops_only_for_unknowns(
    repo: &Repository,
    commit_ids: Seq<ObjectId>,
    rank: spec_fn(ObjectId) -> nat,
)
    requires
        ranked(repo, distinct(commit_ids), rank),
    ensures
        plan(repo, commit_ids) matches Err(stop) ==> stop is Unknown,
{
    let selected = distinct(commit_ids);
    law_distinct_keeps_first_occurrences(commit_ids);
    assert forall|commit: ObjectId| selected.contains(commit) implies chain_end(
        repo,
        selected,
        commit,
        selected.len(),
    ) is Some by {
        if chain_end(repo, selected, commit, selected.len()) is None {
            let path = lemma_endless_chain(repo, selected, commit, selected.len(), rank);
            lemma_no_more_distinct_than_selected(path, selected);
        }
    }
    lemma_commits_read_is_no_failure(repo, selected);
    lemma_change_ranges_not_cyclic(repo, selected, selected);
}

/// The commits along an endless chain, which are all selected and of falling rank.
proof fn lemma_endless_chain(
    repo: &Repository,
    selected: Seq<ObjectId>,
    commit: ObjectId,
    steps: nat,
    rank: spec_fn(ObjectId) -> nat,
) -> (path: Seq<ObjectId>)
    requires
        ranked(repo, selected, rank),
        selected.contains(commit),
        chain_end(repo, selected, commit, steps) is None,
    ensures
        path.len() == steps + 1,
        path[0] == commit,
        path.no_duplicates(),
        forall|k: int| 0 <= k < path.len() ==> selected.contains(#[trigger] path[k]),
        forall|k: int| 0 < k < path.len() ==> rank(#[trigger] path[k]) < rank(commit),
    decreases steps,
{
    if steps == 0 {
        seq![commit]
    } else {
        let parent = selected_parent(repo, selected, commit)->Some_0;
        let rest = lemma_endless_chain(repo, selected, parent, (steps - 1) as nat, rank);
        let path = seq![commit] + rest;
        assert forall|k: int| 0 <= k < path.len() implies selected.contains(#[trigger] path[k]) by {
            if k > 0 {
                assert(path[k] == rest[k - 1]);
            }
        }
        assert forall|k: int| 0 < k < path.len() implies rank(#[trigger] path[k]) < rank(
            commit,
        ) by {
            assert(path[k] == rest[k - 1]);
        }
        assert forall|k: int, l: int| 0 <= k < l < path.len() implies path[k] != path[l] by {
            if k > 0 {
                assert(path[k] == rest[k - 1]);
                assert(path[l] == rest[l - 1]);
            } else {
                assert(rank(path[l]) < rank(commit));
            }
        }
        path
    }
}

/// Distinct selected commits are no more than the selected commits.
proof fn lemma_no_more_distinct_than_selected(path: Seq<ObjectId>, selected: Seq<ObjectId>)
    requires
        path.no_duplicates(),
        forall|k: int| 0 <= k < path.len() ==> selected.contains(#[trigger] path[k]),
    ensures
        path.len() <= selected.len(),
{
    path.unique_seq_to_set();
    selected.lemma_cardinality_of_set();
    assert(path.to_set().subset_of(selected.to_set()));
    vstd::set_lib::lemma_len_subset(path.to_set(), selected.to_set());
}

proof fn lemma_commits_read_is_no_failure(repo: &Repository, selected: Seq<ObjectId>)
    ensures
        commits_read(repo, selected) matches Err(stop) ==> stop is Unknown,
    decreases selected.len(),
{
    if selected.len() > 0 {
        lemma_commits_read_is_no_failure(repo, selected.drop_last());
    }
}

proof fn lemma_change_ranges_not_cyclic(
    repo: &Repository,
    selected: Seq<ObjectId>,
    candidates: Seq<ObjectId>,
)
    requires
        forall|k: int| 0 <= k < candidates.len() ==> selected.contains(#[trigger] candidates[k]),
        forall|commit: ObjectId|
            selected.contains(commit) ==> chain_end(
                repo,
                selected,
                commit,
                selected.len(),
            ) is Some,
    ensures
        change_ranges(repo, selected, candidates) matches Err(stop) ==> stop is Unknown,
    decreases candidates.len(),
{
    if candidates.len() > 0 {
        assert(selected.contains(candidates[candidates.len() - 1]));
        assert forall|k: int| 0 <= k < candidates.drop_last().len() implies selected.contains(
            #[trigger] candidates.drop_last()[k],
        ) by {
            assert(candidates[k] == candidates.drop_last()[k]);
        }
        lemma_change_ranges_not_cyclic(repo, selected, candidates.drop_last());
    }
}

/// Whether a commit lies on the chain of selected first parents below a tip.
pub open spec fn is_below(
    repo: &Repository,
    selected: Seq<ObjectId>,
    tip: ObjectId,
    commit: ObjectId,
) -> bool {
    exists|n: nat| #[trigger] descend(repo, selected, tip, n) == Some(commit)
}

/// Nothing that was selected is lost: in a history that was written commit by commit, every
/// selected commit lies on the chain of a planned one.
pub proof fn law_every_selected_commit_is_in_a_range(
    repo: &Repository,
    commit_ids: Seq<ObjectId>,
    rank: spec_fn(ObjectId) -> nat,
    commit: ObjectId,
)
    requires
        plan(repo, commit_ids) is Ok,
        ranked(repo, distinct(commit_ids), rank),
        commit_ids.contains(commit),
    ensures
        exists|i: int|
            0 <= i < plan(repo, commit_ids)->Ok_0.len() && is_below(
                repo,
                distinct(commit_ids),
                #[trigger] plan(repo, commit_ids)->Ok_0[i].commit_id,
                commit,
            ),
{
    let selected = distinct(commit_ids);
    let ranges = plan(repo, commit_ids)->Ok_0;
    law_distinct_keeps_first_occurrences(commit_ids);
    let tip = lemma_tip_above(repo, selected, rank, commit);
    law_tips_are_planned_in_order(repo, commit_ids);
    let pred = |c: ObjectId| is_tip(repo, selected, c);
    selected.lemma_filter_contains_rev(pred, tip);
    let i = choose|i: int| 0 <= i < range_tips(ranges).len() && range_tips(ranges)[i] == tip;
    assert(ranges[i].commit_id == tip);
}

/// A tip above a selected commit.
proof fn lemma_tip_above(
    repo: &Repository,
    selected: Seq<ObjectId>,
    rank: spec_fn(ObjectId) -> nat,
    commit: ObjectId,
) -> (tip: ObjectId)
    requires
        ranked(repo, selected, rank),
        selected.contains(commit),
    ensures
        selected.contains(tip),
        is_tip(repo, selected, tip),
        is_below(repo, selected, tip, commit),
    decreases selected.to_set().filter(|c: ObjectId| rank(c) > rank(commit)).len(),
{
    if is_tip(repo, selected, commit) {
        assert(descend(repo, selected, commit, 0) == Some(commit));
        commit
    } else {
        let child = choose|child: ObjectId|
            #![trigger selected.contains(child)]
            selected.contains(child) && selected_parent(repo, selected, child) == Some(commit);
        let higher = selected.to_set().filter(|c: ObjectId| rank(c) > rank(commit));
        let higher_still = selected.to_set().filter(|c: ObjectId| rank(c) > rank(child));
        selected.lemma_cardinality_of_set();
        assert(higher.contains(child));
        assert(!higher_still.contains(child));
        assert(higher_still.subset_of(higher.remove(child)));
        vstd::set_lib::lemma_len_subset(higher_still, higher.remove(child));
        let tip = lemma_tip_above(repo, selected, rank, child);
        let n = choose|n: nat| #[trigger] descend(repo, selected, tip, n) == Some(child);
        lemma_descend_once_more(repo, selected, tip, n);
        assert(descend(repo, selected, tip, n + 1) == Some(commit));
        tip
    }
}

proof fn lemma_descend_once_more(
    repo: &Repository,
    selected: Seq<ObjectId>,
    commit: ObjectId,
    n: nat,
)
    requires
        descend(repo, selected, commit, n) is Some,
    ensures
        descend(repo, selected, commit, n + 1) == selected_parent(
            repo,
            selected,
            descend(repo, selected, commit, n)->Some_0,
        ),
    decreases n,
{
    reveal_with_fuel(descend, 2);
    if n > 0 {
        let parent = selected_parent(repo, selected, commit)->Some_0;
        lemma_descend_once_more(repo, selected, parent, (n - 1) as nat);
    }
}

/// Whether commits form a chain: each is the first parent of the next, and what lies below the
/// first of them is not one of them.
pub open spec fn is_chain(repo: &Repository, commits: Seq<ObjectId>) -> bool {
    &&& commits.len() > 0
    &&& commits.no_duplicates()
    &&& forall|k: int|
        0 < k < commits.len() ==> first_parent(repo, #[trigger] commits[k]) == Ok::<_, StopView>(
            Some(commits[k - 1]),
        )
    &&& first_parent(repo, commits[0]) is Ok
    &&& first_parent(repo, commits[0]) matches Ok(Some(parent)) ==> !commits.contains(parent)
}

/// The selected parents of the commits of a chain are the commits before them.
proof fn lemma_parents_in_chain(repo: &Repository, commits: Seq<ObjectId>, k: int)
    requires
        is_chain(repo, commits),
        0 <= k < commits.len(),
    ensures
        repo.spec_commit(commits[k]) is Ok,
        selected_parent(repo, commits, commits[k]) == if k == 0 {
            None
        } else {
            Some(commits[k - 1])
        },
{
    if k > 0 {
        assert(commits.contains(commits[k - 1]));
    }
}

proof fn lemma_chain_is_read(repo: &Repository, commits: Seq<ObjectId>, n: nat)
    requires
        is_chain(repo, commits),
        n <= commits.len(),
    ensures
        commits_read(repo, commits.take(n as int)) is Ok,
    decreases n,
{
    if n > 0 {
        lemma_chain_is_read(repo, commits, (n - 1) as nat);
        assert(commits.take(n as int).drop_last() =~= commits.take(n - 1));
        lemma_parents_in_chain(repo, commits, n - 1);
    }
}

proof fn lemma_end_of_chain(repo: &Repository, commits: Seq<ObjectId>, k: nat, steps: nat)
    requires
        is_chain(repo, commits),
        k < commits.len(),
        k <= steps,
    ensures
        chain_end(repo, commits, commits[k as int], steps) == Some(commits[0]),
    decreases k,
{
    lemma_parents_in_chain(repo, commits, k as int);
    if k > 0 {
        lemma_end_of_chain(repo, commits, (k - 1) as nat, (steps - 1) as nat);
    }
}

proof fn lemma_only_the_last_is_a_tip(repo: &Repository, commits: Seq<ObjectId>, k: int)
    requires
        is_chain(repo, commits),
        0 <= k < commits.len(),
    ensures
        is_tip(repo, commits, commits[k]) <==> k == commits.len() - 1,
{
    if k < commits.len() - 1 {
        lemma_parents_in_chain(repo, commits, k + 1);
        assert(commits.contains(commits[k + 1]));
    } else {
        assert forall|child: ObjectId|
            #![trigger commits.contains(child)]
            commits.contains(child) implies selected_parent(repo, commits, child) != Some(
            commits[k],
        ) by {
            let i = choose|i: int| 0 <= i < commits.len() && commits[i] == child;
            lemma_parents_in_chain(repo, commits, i);
        }
    }
}

proof fn lemma_ranges_of_chain(repo: &Repository, commits: Seq<ObjectId>, n: nat)
    requires
        is_chain(repo, commits),
        n < commits.len(),
    ensures
        change_ranges(repo, commits, commits.take(n as int)) == Ok::<_, StopView>(
            Seq::<PlannedCommitChange>::empty(),
        ),
    decreases n,
{
    if n > 0 {
        lemma_ranges_of_chain(repo, commits, (n - 1) as nat);
        assert(commits.take(n as int).drop_last() =~= commits.take(n - 1));
        lemma_only_the_last_is_a_tip(repo, commits, n - 1);
    }
}

/// A chain is planned as one range, that of its last commit, which reaches down to the parent of
/// its first.
pub proof fn law_chain_is_planned_as_one_range(repo: &Repository, commits: Seq<ObjectId>)
    requires
        is_chain(repo, commits),
    ensures
        plan(repo, commits) == match change_range(repo, commits, commits.last()) {
            Ok(range) => Ok(seq![range]),
            Err(stop) => Err(stop),
        },
        chain_end(repo, commits, commits.last(), commits.len()) == Some(commits[0]),
        below_range(repo, commits, commits.last()) == first_parent(repo, commits[0])->Ok_0,
        distinct(commits) == commits,
{
    let n = commits.len();
    lemma_distinct_of_distinct(commits);
    lemma_chain_is_read(repo, commits, n);
    assert(commits.take(n as int) =~= commits);
    assert(commits.drop_last() =~= commits.take(n - 1));
    lemma_ranges_of_chain(repo, commits, (n - 1) as nat);
    lemma_only_the_last_is_a_tip(repo, commits, n - 1);
    lemma_end_of_chain(repo, commits, (n - 1) as nat, n);
    if let Ok(range) = change_range(repo, commits, commits.last()) {
        assert(seq![range] =~= Seq::<PlannedCommitChange>::empty().push(range));
    }
}

/// Whether a commit was read, and has `parent` as the first of its parents.
pub open spec fn stands_on(repo: &Repository, commit: ObjectId, parent: ObjectId) -> bool {
    repo.spec_commit(commit) matches Ok(fact) && fact.parents@.len() > 0 && fact.parents@[0]
        == parent
}

/// The first parent of a commit that was read is the first of its parents, whatever others it has.
pub proof fn law_first_parent_is_the_first(repo: &Repository, commit: ObjectId, parent: ObjectId)
    ensures
        first_parent(repo, commit) == Ok::<_, StopView>(Some(parent)) <==> stands_on(
            repo,
            commit,
            parent,
        ),
        first_parent(repo, commit) matches Ok(None) <==> repo.spec_commit(commit) is Ok
            && repo.spec_commit(commit)->Ok_0.parents@.len() == 0,
        first_parent(repo, commit) matches Err(stop) ==> repo.spec_commit(commit) matches Err(open)
            && open == stop,
{
}

/// The ranges end with exactly those selected commits that no selected commit stands on. Each has
/// one range, and the ranges are in the order in which their commits were selected first.
pub proof fn law_ranges_end_where_nothing_selected_stands_on_them(
    repo: &Repository,
    commit_ids: Seq<ObjectId>,
)
    requires
        plan(repo, commit_ids) is Ok,
    ensures
        ({
            let ranges = plan(repo, commit_ids)->Ok_0;
            &&& forall|commit: ObjectId|
                (exists|i: int| 0 <= i < ranges.len() && #[trigger] ranges[i].commit_id == commit)
                    <==> #[trigger] commit_ids.contains(commit) && forall|child: ObjectId| #[trigger]
                    commit_ids.contains(child) ==> !stands_on(repo, child, commit)
            &&& forall|i: int, j: int|
                0 <= i < j < ranges.len() ==> {
                    &&& #[trigger] ranges[i].commit_id != #[trigger] ranges[j].commit_id
                    &&& occurs_before(commit_ids, ranges[i].commit_id, ranges[j].commit_id)
                }
        }),
{
    let selected = distinct(commit_ids);
    let ranges = plan(repo, commit_ids)->Ok_0;
    law_distinct_keeps_first_occurrences(commit_ids);
    let places = lemma_places_of_tips(repo, selected, selected);
    assert forall|commit: ObjectId|
        (exists|i: int| 0 <= i < ranges.len() && #[trigger] ranges[i].commit_id == commit)
            <==> #[trigger] commit_ids.contains(commit) && forall|child: ObjectId| #[trigger]
            commit_ids.contains(child) ==> !stands_on(repo, child, commit) by {
        assert(selected.contains(commit) <==> commit_ids.contains(commit));
        if commit_ids.contains(commit) {
            lemma_nothing_stands_on_tips(repo, commit_ids, commit);
        }
        if exists|i: int| 0 <= i < ranges.len() && #[trigger] ranges[i].commit_id == commit {
            let i = choose|i: int|
                0 <= i < ranges.len() && #[trigger] ranges[i].commit_id == commit;
            assert(selected[places[i]] == commit);
        } else if selected.contains(commit) && is_tip(repo, selected, commit) {
            let a = choose|a: int| 0 <= a < selected.len() && selected[a] == commit;
            assert(is_tip(repo, selected, selected[a]));
            let i = choose|i: int| 0 <= i < places.len() && #[trigger] places[i] == a;
            assert(ranges[i].commit_id == commit);
        }
    }
    assert forall|i: int, j: int| 0 <= i < j < ranges.len() implies {
        &&& #[trigger] ranges[i].commit_id != #[trigger] ranges[j].commit_id
        &&& occurs_before(commit_ids, ranges[i].commit_id, ranges[j].commit_id)
    } by {
        assert(places[i] < places[j]);
        assert(selected[places[i]] == ranges[i].commit_id);
        assert(selected[places[j]] == ranges[j].commit_id);
    }
}

proof fn lemma_nothing_stands_on_tips(
    repo: &Repository,
    commit_ids: Seq<ObjectId>,
    commit: ObjectId,
)
    requires
        commit_ids.contains(commit),
    ensures
        is_tip(repo, distinct(commit_ids), commit) <==> forall|child: ObjectId| #[trigger]
            commit_ids.contains(child) ==> !stands_on(repo, child, commit),
{
    let selected = distinct(commit_ids);
    law_distinct_keeps_first_occurrences(commit_ids);
    assert(selected.contains(commit));
    if is_tip(repo, selected, commit) {
        assert forall|child: ObjectId| #[trigger]
            commit_ids.contains(child) implies !stands_on(repo, child, commit) by {
            assert(selected.contains(child));
        }
    } else {
        let child = choose|child: ObjectId|
            #![trigger selected.contains(child)]
            selected.contains(child) && selected_parent(repo, selected, child) == Some(commit);
        assert(commit_ids.contains(child));
        assert(stands_on(repo, child, commit));
    }
}

/// Where the tips stand among the candidates.
proof fn lemma_places_of_tips(
    repo: &Repository,
    selected: Seq<ObjectId>,
    candidates: Seq<ObjectId>,
) -> (places: Seq<int>)
    requires
        change_ranges(repo, selected, candidates) is Ok,
    ensures
        places.len() == change_ranges(repo, selected, candidates)->Ok_0.len(),
        forall|i: int|
            0 <= i < places.len() ==> {
                &&& 0 <= #[trigger] places[i] < candidates.len()
                &&& candidates[places[i]] == change_ranges(
                    repo,
                    selected,
                    candidates,
                )->Ok_0[i].commit_id
                &&& is_tip(repo, selected, candidates[places[i]])
            },
        forall|i: int, j: int|
            0 <= i < j < places.len() ==> #[trigger] places[i] < #[trigger] places[j],
        forall|a: int|
            0 <= a < candidates.len() && is_tip(repo, selected, #[trigger] candidates[a])
                ==> places.contains(a),
    decreases candidates.len(),
{
    if candidates.len() == 0 {
        Seq::empty()
    } else {
        let last = candidates.len() - 1;
        let before = lemma_places_of_tips(repo, selected, candidates.drop_last());
        assert forall|a: int|
            0 <= a < last && is_tip(
                repo,
                selected,
                #[trigger] candidates[a],
            ) implies before.contains(a) by {
            assert(candidates.drop_last()[a] == candidates[a]);
        }
        if is_tip(repo, selected, candidates.last()) {
            let places = before.push(last);
            assert(places[places.len() - 1] == last);
            assert forall|a: int|
                0 <= a < candidates.len() && is_tip(
                    repo,
                    selected,
                    #[trigger] candidates[a],
                ) implies places.contains(a) by {
                if a < last {
                    let i = choose|i: int| 0 <= i < before.len() && before[i] == a;
                    assert(places[i] == a);
                }
            }
            places
        } else {
            before
        }
    }
}

/// Whether `path` leads from a selected commit down through selected commits, each of which stands
/// on the next, to the last one before `below`: a commit that is not selected, or none if the path
/// ends with a root.
pub open spec fn leads_down(
    repo: &Repository,
    commit_ids: Seq<ObjectId>,
    path: Seq<ObjectId>,
    below: Option<ObjectId>,
) -> bool {
    &&& path.len() > 0
    &&& forall|k: int| 0 <= k < path.len() ==> commit_ids.contains(#[trigger] path[k])
    &&& forall|k: int, l: int|
        0 <= k && l == k + 1 && l < path.len() ==> stands_on(
            repo,
            #[trigger] path[k],
            #[trigger] path[l],
        )
    &&& match below {
        Some(parent) => !commit_ids.contains(parent) && stands_on(repo, path.last(), parent),
        None => repo.spec_commit(path.last()) matches Ok(fact) && fact.parents@.len() == 0,
    }
}

/// The changes of a range are measured from the first commit below it that is not selected, as far
/// as selected commits lead down from its tip, or from nothing if they lead down to a root. This
/// is also the commit that lies below the range.
pub proof fn law_range_is_measured_from_what_lies_below(
    repo: &Repository,
    commit_ids: Seq<ObjectId>,
    i: int,
)
    requires
        plan(repo, commit_ids) is Ok,
        0 <= i < plan(repo, commit_ids)->Ok_0.len(),
    ensures
        ({
            let range = plan(repo, commit_ids)->Ok_0[i];
            &&& below_ranges(repo, commit_ids) matches Ok(below)
            &&& below.len() == plan(repo, commit_ids)->Ok_0.len()
            &&& exists|path: Seq<ObjectId>|
                path[0] == range.commit_id && #[trigger] leads_down(
                    repo,
                    commit_ids,
                    path,
                    below[i],
                )
            &&& match below[i] {
                Some(parent) => repo.spec_tree(parent, TreeKind::AutoResolution) == Ok::<
                    _,
                    StopView,
                >(range.base_tree_id),
                None => range.base_tree_id == empty_tree(),
            }
        }),
{
    let selected = distinct(commit_ids);
    law_distinct_keeps_first_occurrences(commit_ids);
    lemma_ranges_are_change_ranges(repo, selected, selected, i);
    let range = plan(repo, commit_ids)->Ok_0[i];
    let below = below_ranges(repo, commit_ids)->Ok_0;
    assert(below[i] == below_range(repo, selected, range.commit_id));
    let path = lemma_path_down(repo, commit_ids, range.commit_id, selected.len());
    assert(leads_down(repo, commit_ids, path, below[i]));
}

proof fn lemma_path_down(
    repo: &Repository,
    commit_ids: Seq<ObjectId>,
    commit: ObjectId,
    steps: nat,
) -> (path: Seq<ObjectId>)
    requires
        commit_ids.contains(commit),
        chain_end(repo, distinct(commit_ids), commit, steps) is Some,
        first_parent(repo, chain_end(repo, distinct(commit_ids), commit, steps)->Some_0) is Ok,
    ensures
        path.len() > 0,
        path[0] == commit,
        leads_down(
            repo,
            commit_ids,
            path,
            first_parent(
                repo,
                chain_end(repo, distinct(commit_ids), commit, steps)->Some_0,
            )->Ok_0,
        ),
    decreases steps,
{
    let selected = distinct(commit_ids);
    law_distinct_keeps_first_occurrences(commit_ids);
    match selected_parent(repo, selected, commit) {
        None => {
            if let Ok(Some(parent)) = first_parent(repo, commit) {
                assert(!selected.contains(parent));
                assert(!commit_ids.contains(parent));
            }
            seq![commit]
        },
        Some(parent) => {
            assert(selected.contains(parent));
            let rest = lemma_path_down(repo, commit_ids, parent, (steps - 1) as nat);
            let path = seq![commit] + rest;
            assert(path.last() == rest.last());
            assert forall|k: int| 0 <= k < path.len() implies commit_ids.contains(
                #[trigger] path[k],
            ) by {
                if k > 0 {
                    assert(path[k] == rest[k - 1]);
                }
            }
            assert forall|k: int, l: int| 0 <= k && l == k + 1 && l < path.len() implies stands_on(
                repo,
                #[trigger] path[k],
                #[trigger] path[l],
            ) by {
                assert(path[l] == rest[l - 1]);
                if k > 0 {
                    assert(path[k] == rest[k - 1]);
                    assert(stands_on(repo, rest[k - 1], rest[l - 1]));
                }
            }
            path
        },
    }
}

/// A plan is owed: in a history that was written commit by commit it is made as soon as the
/// selected commits are read, and the trees of what they stand on outside of the selection.
pub proof fn law_plan_is_made_from_commits_and_base_trees(
    repo: &Repository,
    commit_ids: Seq<ObjectId>,
    rank: spec_fn(ObjectId) -> nat,
)
    requires
        forall|commit: ObjectId, parent: ObjectId| #[trigger]
            stands_on(repo, commit, parent) ==> rank(parent) < rank(commit),
        forall|commit: ObjectId| #[trigger]
            commit_ids.contains(commit) ==> repo.spec_commit(commit) is Ok,
        forall|commit: ObjectId, parent: ObjectId|
            commit_ids.contains(commit) && !commit_ids.contains(parent) && #[trigger] stands_on(
                repo,
                commit,
                parent,
            ) ==> repo.spec_tree(parent, TreeKind::AutoResolution) is Ok,
    ensures
        plan(repo, commit_ids) is Ok,
{
    let selected = distinct(commit_ids);
    law_distinct_keeps_first_occurrences(commit_ids);
    assert forall|commit: ObjectId| (
    #[trigger] selected_parent(repo, selected, commit) matches Some(parent) ==> rank(parent) < rank(
        commit,
    )) by {
        if let Some(parent) = selected_parent(repo, selected, commit) {
            assert(stands_on(repo, commit, parent));
        }
    }
    assert forall|commit: ObjectId| #[trigger] selected.contains(commit) implies chain_end(
        repo,
        selected,
        commit,
        selected.len(),
    ) is Some by {
        if chain_end(repo, selected, commit, selected.len()) is None {
            let path = lemma_endless_chain(repo, selected, commit, selected.len(), rank);
            lemma_no_more_distinct_than_selected(path, selected);
        }
    }
    assert forall|k: int| 0 <= k < selected.len() implies commit_ids.contains(
        #[trigger] selected[k],
    ) by {
        assert(selected.contains(selected[k]));
    }
    lemma_all_read(repo, selected);
    lemma_ranges_are_told(repo, commit_ids, selected);
}

proof fn lemma_all_read(repo: &Repository, selected: Seq<ObjectId>)
    requires
        forall|k: int| 0 <= k < selected.len() ==> repo.spec_commit(#[trigger] selected[k]) is Ok,
    ensures
        commits_read(repo, selected) is Ok,
    decreases selected.len(),
{
    if selected.len() > 0 {
        lemma_all_read(repo, selected.drop_last());
        assert(selected.last() == selected[selected.len() - 1]);
    }
}

proof fn lemma_ranges_are_told(
    repo: &Repository,
    commit_ids: Seq<ObjectId>,
    candidates: Seq<ObjectId>,
)
    requires
        forall|k: int| 0 <= k < candidates.len() ==> commit_ids.contains(#[trigger] candidates[k]),
        forall|commit: ObjectId| #[trigger]
            distinct(commit_ids).contains(commit) ==> chain_end(
                repo,
                distinct(commit_ids),
                commit,
                distinct(commit_ids).len(),
            ) is Some,
        forall|commit: ObjectId| #[trigger]
            commit_ids.contains(commit) ==> repo.spec_commit(commit) is Ok,
        forall|commit: ObjectId, parent: ObjectId|
            commit_ids.contains(commit) && !commit_ids.contains(parent) && #[trigger] stands_on(
                repo,
                commit,
                parent,
            ) ==> repo.spec_tree(parent, TreeKind::AutoResolution) is Ok,
    ensures
        change_ranges(repo, distinct(commit_ids), candidates) is Ok,
    decreases candidates.len(),
{
    let selected = distinct(commit_ids);
    if candidates.len() > 0 {
        let tip = candidates.last();
        assert(tip == candidates[candidates.len() - 1]);
        assert forall|k: int| 0 <= k < candidates.drop_last().len() implies commit_ids.contains(
            #[trigger] candidates.drop_last()[k],
        ) by {
            assert(candidates.drop_last()[k] == candidates[k]);
        }
        lemma_ranges_are_told(repo, commit_ids, candidates.drop_last());
        law_distinct_keeps_first_occurrences(commit_ids);
        assert(selected.contains(tip));
        lemma_end_is_selected(repo, commit_ids, tip, selected.len());
        let lowest = chain_end(repo, selected, tip, selected.len())->Some_0;
        assert(commit_ids.contains(lowest));
        if let Ok(Some(parent)) = first_parent(repo, lowest) {
            assert(stands_on(repo, lowest, parent));
            lemma_chain_end_is_reached(repo, selected, tip, selected.len());
            assert(!selected.contains(parent));
            assert(!commit_ids.contains(parent));
        }
    }
}

proof fn lemma_end_is_selected(
    repo: &Repository,
    commit_ids: Seq<ObjectId>,
    commit: ObjectId,
    steps: nat,
)
    requires
        commit_ids.contains(commit),
        chain_end(repo, distinct(commit_ids), commit, steps) is Some,
    ensures
        commit_ids.contains(chain_end(repo, distinct(commit_ids), commit, steps)->Some_0),
    decreases steps,
{
    law_distinct_keeps_first_occurrences(commit_ids);
    if let Some(parent) = selected_parent(repo, distinct(commit_ids), commit) {
        assert(distinct(commit_ids).contains(parent));
        lemma_end_is_selected(repo, commit_ids, parent, (steps - 1) as nat);
    }
}

/// A plan is refused only for a selected commit below which first parents lead through more
/// selected commits than there are, so that they lead in a circle.
pub proof fn law_only_cycles_are_refused(
    repo: &Repository,
    commit_ids: Seq<ObjectId>,
    failure: FailureView,
)
    requires
        plan(repo, commit_ids) == Err::<Seq<PlannedCommitChange>, _>(StopView::Failed(failure)),
    ensures
        failure matches FailureView::CyclicHistory { commit } && commit_ids.contains(commit)
            && descend(repo, distinct(commit_ids), commit, distinct(commit_ids).len() + 1) is Some,
{
    let selected = distinct(commit_ids);
    law_distinct_keeps_first_occurrences(commit_ids);
    lemma_commits_read_is_no_failure(repo, selected);
    lemma_refused_for_a_cycle(repo, selected, selected, failure);
    if let FailureView::CyclicHistory { commit } = failure {
        assert(selected.contains(commit));
    }
}

proof fn lemma_refused_for_a_cycle(
    repo: &Repository,
    selected: Seq<ObjectId>,
    candidates: Seq<ObjectId>,
    failure: FailureView,
)
    requires
        change_ranges(repo, selected, candidates) == Err::<Seq<PlannedCommitChange>, _>(
            StopView::Failed(failure),
        ),
    ensures
        failure matches FailureView::CyclicHistory { commit } && candidates.contains(commit)
            && descend(repo, selected, commit, selected.len() + 1) is Some,
    decreases candidates.len(),
{
    if candidates.len() > 0 {
        let before = candidates.drop_last();
        match change_ranges(repo, selected, before) {
            Err(_) => {
                lemma_refused_for_a_cycle(repo, selected, before, failure);
                let commit = failure->commit;
                let k = choose|k: int| 0 <= k < before.len() && before[k] == commit;
                assert(candidates[k] == commit);
            },
            Ok(_) => {
                assert(candidates[candidates.len() - 1] == candidates.last());
                lemma_endless_descent(repo, selected, candidates.last(), selected.len());
            },
        }
    }
}

proof fn lemma_endless_descent(
    repo: &Repository,
    selected: Seq<ObjectId>,
    commit: ObjectId,
    steps: nat,
)
    requires
        chain_end(repo, selected, commit, steps) is None,
    ensures
        descend(repo, selected, commit, steps + 1) is Some,
    decreases steps,
{
    reveal_with_fuel(descend, 2);
    if steps > 0 {
        let parent = selected_parent(repo, selected, commit)->Some_0;
        lemma_endless_descent(repo, selected, parent, (steps - 1) as nat);
    }
}

} // verus!

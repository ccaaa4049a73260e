//! Turning selected commits into the change ranges that are to be merged.
use crate::bytes::{contains_id, copy_ids};
use crate::object_id::ObjectId;
use crate::repository::{Repository, TreeKind};
use crate::stop::{Failure, FailureView, Stop, StopView};
use vstd::prelude::*;

verus! {

/// A selected commit whose change range is to be merged into an accumulated tree.
///
/// Merging the range from `base_tree_id` to the commit's tree applies what the selected commits
/// of the range change, and nothing that only its unselected ancestors changed.
#[derive(Clone, Copy, Debug, PartialEq, Eq)]
pub struct PlannedCommitChange {
    /// The selected commit at the upper end of the range.
    pub commit_id: ObjectId,
    /// The tree from which the range is measured.
    pub base_tree_id: ObjectId,
}

/// The ids in the order in which each occurs first.
pub open spec fn distinct(ids: Seq<ObjectId>) -> Seq<ObjectId>
    decreases ids.len(),
{
    if ids.len() == 0 {
        Seq::empty()
    } else {
        let before = distinct(ids.drop_last());
        if before.contains(ids.last()) {
            before
        } else {
            before.push(ids.last())
        }
    }
}

/// The first parent of a commit, `None` if it is a root.
pub open spec fn first_parent(repo: &Repository, commit: ObjectId) -> Result<
    Option<ObjectId>,
    StopView,
> {
    match repo.spec_commit(commit) {
        Ok(fact) => Ok(
            if fact.parents@.len() > 0 {
                Some(fact.parents@[0])
            } else {
                None
            },
        ),
        Err(stop) => Err(stop),
    }
}

/// Whether the selected commits have been read, or else what the first one lacks.
pub open spec fn commits_read(repo: &Repository, selected: Seq<ObjectId>) -> Result<(), StopView>
    decreases selected.len(),
{
    if selected.len() == 0 {
        Ok(())
    } else {
        match commits_read(repo, selected.drop_last()) {
            Ok(_) => match repo.spec_commit(selected.last()) {
                Ok(_) => Ok(()),
                Err(stop) => Err(stop),
            },
            Err(stop) => Err(stop),
        }
    }
}

/// The first parent of a commit if it is selected too.
pub open spec fn selected_parent(
    repo: &Repository,
    selected: Seq<ObjectId>,
    commit: ObjectId,
) -> Option<ObjectId> {
    match first_parent(repo, commit) {
        Ok(Some(parent)) => if selected.contains(parent) {
            Some(parent)
        } else {
            None
        },
        _ => None,
    }
}

/// Whether no selected commit has this one as its first parent.
pub open spec fn is_tip(repo: &Repository, selected: Seq<ObjectId>, commit: ObjectId) -> bool {
    forall|child: ObjectId|
        #![trigger selected.contains(child)]
        selected.contains(child) ==> selected_parent(repo, selected, child) != Some(commit)
}

/// The lowest commit that is reached through selected first parents in at most `steps` steps,
/// `None` if they do not end by then.
pub open spec fn chain_end(
    repo: &Repository,
    selected: Seq<ObjectId>,
    commit: ObjectId,
    steps: nat,
) -> Option<ObjectId>
    decreases steps,
{
    match selected_parent(repo, selected, commit) {
        None => Some(commit),
        Some(parent) => if steps == 0 {
            None
        } else {
            chain_end(repo, selected, parent, (steps - 1) as nat)
        },
    }
}

/// The change range of a tip: from the first unselected first parent below it, or from the empty
/// tree if there is none.
pub open spec fn change_range(
    repo: &Repository,
    selected: Seq<ObjectId>,
    tip: ObjectId,
) -> Result<PlannedCommitChange, StopView> {
    match chain_end(repo, selected, tip, selected.len()) {
        None => Err(StopView::Failed(FailureView::CyclicHistory { commit: tip })),
        Some(lowest) => match first_parent(repo, lowest) {
            Err(stop) => Err(stop),
            Ok(None) => Ok(
                PlannedCommitChange {
                    commit_id: tip,
                    base_tree_id: crate::object_id::empty_tree(),
                },
            ),
            Ok(Some(parent)) => match repo.spec_tree(parent, TreeKind::AutoResolution) {
                Err(stop) => Err(stop),
                Ok(tree) => Ok(PlannedCommitChange { commit_id: tip, base_tree_id: tree }),
            },
        },
    }
}

/// The change ranges of the tips among `candidates`, in order, or the first reason why one cannot
/// be told.
pub open spec fn change_ranges(
    repo: &Repository,
    selected: Seq<ObjectId>,
    candidates: Seq<ObjectId>,
) -> Result<Seq<PlannedCommitChange>, StopView>
    decreases candidates.len(),
{
    if candidates.len() == 0 {
        Ok(Seq::empty())
    } else {
        match change_ranges(repo, selected, candidates.drop_last()) {
            Err(stop) => Err(stop),
            Ok(ranges) => if !is_tip(repo, selected, candidates.last()) {
                Ok(ranges)
            } else {
                match change_range(repo, selected, candidates.last()) {
                    Err(stop) => Err(stop),
                    Ok(range) => Ok(ranges.push(range)),
                }
            },
        }
    }
}

/// The change ranges to merge for a selection of commits.
pub open spec fn plan(repo: &Repository, commit_ids: Seq<ObjectId>) -> Result<
    Seq<PlannedCommitChange>,
    StopView,
> {
    let selected = distinct(commit_ids);
    match commits_read(repo, selected) {
        Err(stop) => Err(stop),
        Ok(_) => change_ranges(repo, selected, selected),
    }
}

/// The commits that change ranges end with.
pub open spec fn range_tips(ranges: Seq<PlannedCommitChange>) -> Seq<ObjectId> {
    ranges.map_values(|range: PlannedCommitChange| range.commit_id)
}

/// The commit below the range of a tip: the first unselected first parent, `None` if the range
/// reaches down to a root.
pub open spec fn below_range(repo: &Repository, selected: Seq<ObjectId>, tip: ObjectId) -> Option<
    ObjectId,
> {
    match chain_end(repo, selected, tip, selected.len()) {
        None => None,
        Some(lowest) => match first_parent(repo, lowest) {
            Ok(parent) => parent,
            Err(_) => None,
        },
    }
}

/// The commits below the planned ranges of a selection, in the order of the plan.
pub open spec fn below_ranges(repo: &Repository, commit_ids: Seq<ObjectId>) -> Result<
    Seq<Option<ObjectId>>,
    StopView,
> {
    match plan(repo, commit_ids) {
        Err(stop) => Err(stop),
        Ok(ranges) => Ok(
            ranges.map_values(
                |range: PlannedCommitChange|
                    below_range(repo, distinct(commit_ids), range.commit_id),
            ),
        ),
    }
}

/// Keeps the first of equal ids.
pub fn deduplicate_commit_ids(commit_ids: Vec<ObjectId>) -> (r: Vec<ObjectId>)
    ensures
        r@ == distinct(commit_ids@),
{
    let mut deduplicated: Vec<ObjectId> = Vec::with_capacity(commit_ids.len());
    let mut i: usize = 0;
    while i < commit_ids.len()
        invariant
            i <= commit_ids.len(),
            deduplicated@ == distinct(commit_ids@.take(i as int)),
        decreases commit_ids.len() - i,
    {
        assert(commit_ids@.take(i + 1).drop_last() =~= commit_ids@.take(i as int));
        if !contains_id(deduplicated.as_slice(), commit_ids[i]) {
            deduplicated.push(commit_ids[i]);
        }
        i = i + 1;
    }
    assert(commit_ids@.take(i as int) =~= commit_ids@);
    deduplicated
}

/// Reads the first parent of a commit; further parents do not matter.
pub fn first_parent_of(repo: &Repository, commit_id: ObjectId) -> (r: Result<
    Option<ObjectId>,
    Stop,
>)
    ensures
        match first_parent(repo, commit_id) {
            Ok(parent) => r == Ok::<Option<ObjectId>, Stop>(parent),
            Err(stop) => r is Err && r->Err_0@ == stop,
        },
{
    let fact = repo.commit(commit_id)?;
    if fact.parents.len() > 0 {
        Ok(Some(fact.parents[0]))
    } else {
        Ok(None)
    }
}

/// Reads the first parent of each selected commit, and keeps those that are selected too.
fn selected_parents(repo: &Repository, selected: &Vec<ObjectId>) -> (r: Result<
    Vec<Option<ObjectId>>,
    Stop,
>)
    ensures
        match commits_read(repo, selected@) {
            Ok(_) => r is Ok && lists_parents(repo, selected@, r->Ok_0@),
            Err(stop) => r is Err && r->Err_0@ == stop,
        },
{
    let mut parents: Vec<Option<ObjectId>> = Vec::with_capacity(selected.len());
    let mut i: usize = 0;
    while i < selected.len()
        invariant
            i <= selected.len(),
            parents.len() == i,
            commits_read(repo, selected@.take(i as int)) is Ok,
            forall|k: int|
                0 <= k < i ==> #[trigger] parents@[k] == selected_parent(
                    repo,
                    selected@,
                    selected@[k],
                ),
        decreases selected.len() - i,
    {
        proof {
            assert(selected@.take(i + 1).drop_last() =~= selected@.take(i as int));
            if commits_read(repo, selected@.take(i + 1)) is Err {
                lemma_commits_read_prefix(repo, selected@, i + 1);
            }
        }
        let parent = match first_parent_of(repo, selected[i])? {
            Some(parent) => if contains_id(selected.as_slice(), parent) {
                Some(parent)
            } else {
                None
            },
            None => None,
        };
        parents.push(parent);
        i = i + 1;
    }
    assert(selected@.take(i as int) =~= selected@);
    Ok(parents)
}

/// What the first commits of a selection lack, the whole selection lacks.
proof fn lemma_commits_read_prefix(repo: &Repository, selected: Seq<ObjectId>, n: int)
    requires
        0 <= n <= selected.len(),
        commits_read(repo, selected.take(n)) is Err,
    ensures
        commits_read(repo, selected) == commits_read(repo, selected.take(n)),
    decreases selected.len(),
{
    if n == selected.len() {
        assert(selected.take(n) =~= selected);
    } else {
        assert(selected.drop_last().take(n) =~= selected.take(n));
        lemma_commits_read_prefix(repo, selected.drop_last(), n);
    }
}

/// Whether `parents` lists the selected first parent of each selected commit.
spec fn lists_parents(
    repo: &Repository,
    selected: Seq<ObjectId>,
    parents: Seq<Option<ObjectId>>,
) -> bool {
    &&& parents.len() == selected.len()
    &&& forall|k: int|
        0 <= k < selected.len() ==> #[trigger] parents[k] == selected_parent(
            repo,
            selected,
            selected[k],
        )
}

/// Whether a commit is the first parent of a selected one.
fn is_parent_of_selected(
    repo: &Repository,
    selected: &Vec<ObjectId>,
    parents: &Vec<Option<ObjectId>>,
    commit_id: ObjectId,
) -> (r: bool)
    requires
        lists_parents(repo, selected@, parents@),
    ensures
        r == !is_tip(repo, selected@, commit_id),
{
    let mut i: usize = 0;
    while i < parents.len()
        invariant
            i <= parents.len(),
            lists_parents(repo, selected@, parents@),
            forall|k: int|
                0 <= k < i ==> #[trigger] selected_parent(repo, selected@, selected@[k]) != Some(
                    commit_id,
                ),
        decreases parents.len() - i,
    {
        assert(parents@[i as int] == selected_parent(repo, selected@, selected@[i as int]));
        if let Some(parent) = parents[i] {
            if parent.same(&commit_id) {
                assert(selected@.contains(selected@[i as int]));
                return true;
            }
        }
        i = i + 1;
    }
    false
}

/// The selected first parent of a selected commit.
fn listed_parent(
    repo: &Repository,
    selected: &Vec<ObjectId>,
    parents: &Vec<Option<ObjectId>>,
    commit_id: ObjectId,
) -> (r: Option<ObjectId>)
    requires
        lists_parents(repo, selected@, parents@),
        selected@.contains(commit_id),
    ensures
        r == selected_parent(repo, selected@, commit_id),
{
    let mut i: usize = 0;
    while i < selected.len()
        invariant
            i <= selected.len(),
            lists_parents(repo, selected@, parents@),
            selected@.contains(commit_id),
            forall|k: int| 0 <= k < i ==> selected@[k] != commit_id,
        decreases selected.len() - i,
    {
        if selected[i].same(&commit_id) {
            return parents[i];
        }
        i = i + 1;
    }
    None
}

/// Walks down from a selected commit for as long as first parents are selected.
fn find_chain_end(
    repo: &Repository,
    selected: &Vec<ObjectId>,
    parents: &Vec<Option<ObjectId>>,
    commit_id: ObjectId,
) -> (r: Option<ObjectId>)
    requires
        lists_parents(repo, selected@, parents@),
        selected@.contains(commit_id),
    ensures
        r == chain_end(repo, selected@, commit_id, selected@.len()),
        r matches Some(lowest) ==> selected@.contains(lowest),
{
    let mut current_commit_id = commit_id;
    let mut steps: usize = selected.len();
    loop
        invariant
            lists_parents(repo, selected@, parents@),
            selected@.contains(current_commit_id),
            chain_end(repo, selected@, commit_id, selected@.len()) == chain_end(
                repo,
                selected@,
                current_commit_id,
                steps as nat,
            ),
        decreases steps,
    {
        match listed_parent(repo, selected, parents, current_commit_id) {
            None => {
                return Some(current_commit_id);
            },
            Some(parent) => {
                if steps == 0 {
                    return None;
                }
                current_commit_id = parent;
                steps = steps - 1;
            },
        }
    }
}

/// Reads the change range of a tip.
fn find_change_range(
    repo: &Repository,
    selected: &Vec<ObjectId>,
    parents: &Vec<Option<ObjectId>>,
    commit_id: ObjectId,
) -> (r: Result<PlannedCommitChange, Stop>)
    requires
        lists_parents(repo, selected@, parents@),
        selected@.contains(commit_id),
    ensures
        match change_range(repo, selected@, commit_id) {
            Ok(range) => r == Ok::<PlannedCommitChange, Stop>(range),
            Err(stop) => r is Err && r->Err_0@ == stop,
        },
{
    let lowest = match find_chain_end(repo, selected, parents, commit_id) {
        Some(lowest) => lowest,
        None => {
            return Err(Stop::Failed(Failure::CyclicHistory { commit: commit_id }));
        },
    };
    let base_tree_id = match first_parent_of(repo, lowest)? {
        Some(parent_id) => repo.tree(parent_id, TreeKind::AutoResolution)?,
        None => ObjectId::empty_tree(),
    };
    Ok(PlannedCommitChange { commit_id, base_tree_id })
}

/// Turns selected commits into the change ranges that are to be merged.
///
/// Only tips of chains of selected first parents are planned, in the order in which they were
/// selected first. The range of each reaches down its chain to the first unselected commit. So if
/// `B` and `D` are selected in `M <- B <- C <- D`, then `B` contributes `M..B` and `D`
/// contributes `C..D`.
pub fn plan_commit_changes_for_merge(repo: &Repository, commit_ids: Vec<ObjectId>) -> (r: Result<
    Vec<PlannedCommitChange>,
    Stop,
>)
    ensures
        match plan(repo, commit_ids@) {
            Ok(ranges) => r is Ok && r->Ok_0@ == ranges,
            Err(stop) => r is Err && r->Err_0@ == stop,
        },
{
    let selected = deduplicate_commit_ids(commit_ids);
    let parents = selected_parents(repo, &selected)?;
    let mut planned_commit_changes: Vec<PlannedCommitChange> = Vec::new();
    let mut i: usize = 0;
    while i < selected.len()
        invariant
            i <= selected.len(),
            lists_parents(repo, selected@, parents@),
            selected@ == distinct(commit_ids@),
            commits_read(repo, selected@) is Ok,
            change_ranges(repo, selected@, selected@.take(i as int)) == Ok::<
                Seq<PlannedCommitChange>,
                StopView,
            >(planned_commit_changes@),
        decreases selected.len() - i,
    {
        let commit_id = selected[i];
        proof {
            assert(selected@.contains(selected@[i as int]));
            assert(selected@.take(i + 1).drop_last() =~= selected@.take(i as int));
            if change_ranges(repo, selected@, selected@.take(i + 1)) is Err {
                lemma_change_ranges_prefix(repo, selected@, selected@, i + 1);
            }
        }
        if !is_parent_of_selected(repo, &selected, &parents, commit_id) {
            planned_commit_changes.push(find_change_range(repo, &selected, &parents, commit_id)?);
        }
        i = i + 1;
    }
    assert(selected@.take(i as int) =~= selected@);
    Ok(planned_commit_changes)
}

/// What the first candidates lack, all candidates lack.
proof fn lemma_change_ranges_prefix(
    repo: &Repository,
    selected: Seq<ObjectId>,
    candidates: Seq<ObjectId>,
    n: int,
)
    requires
        0 <= n <= candidates.len(),
        change_ranges(repo, selected, candidates.take(n)) is Err,
    ensures
        change_ranges(repo, selected, candidates) == change_ranges(
            repo,
            selected,
            candidates.take(n),
        ),
    decreases candidates.len(),
{
    if n == candidates.len() {
        assert(candidates.take(n) =~= candidates);
    } else {
        assert(candidates.drop_last().take(n) =~= candidates.take(n));
        lemma_change_ranges_prefix(repo, selected, candidates.drop_last(), n);
    }
}

/// Every range is that of a candidate.
pub(crate) proof fn lemma_ranges_are_change_ranges(
    repo: &Repository,
    selected: Seq<ObjectId>,
    candidates: Seq<ObjectId>,
    i: int,
)
    requires
        change_ranges(repo, selected, candidates) is Ok,
        0 <= i < change_ranges(repo, selected, candidates)->Ok_0.len(),
    ensures
        ({
            let range = change_ranges(repo, selected, candidates)->Ok_0[i];
            &&& candidates.contains(range.commit_id)
            &&& change_range(repo, selected, range.commit_id) == Ok::<
                PlannedCommitChange,
                StopView,
            >(range)
        }),
    decreases candidates.len(),
{
    if candidates.len() > 0 {
        let before = change_ranges(repo, selected, candidates.drop_last())->Ok_0;
        let range = change_ranges(repo, selected, candidates)->Ok_0[i];
        if i < before.len() {
            lemma_ranges_are_change_ranges(repo, selected, candidates.drop_last(), i);
            let k = choose|k: int|
                0 <= k < candidates.drop_last().len() && candidates.drop_last()[k]
                    == range.commit_id;
            assert(candidates[k] == range.commit_id);
        } else {
            assert(candidates[candidates.len() - 1] == range.commit_id);
        }
    }
}

/// Finds the commits below the ranges that are planned for selected commits: for each range the
/// first unselected first parent, or `None` if the range reaches down to a root.
pub fn commits_below_ranges(repo: &Repository, commit_ids: &[ObjectId]) -> (r: Result<
    Vec<Option<ObjectId>>,
    Stop,
>)
    ensures
        match below_ranges(repo, commit_ids@) {
            Ok(below) => r is Ok && r->Ok_0@ == below,
            Err(stop) => r is Err && r->Err_0@ == stop,
        },
{
    let ranges = plan_commit_changes_for_merge(repo, copy_ids(commit_ids))?;
    let selected = deduplicate_commit_ids(copy_ids(commit_ids));
    let parents = selected_parents(repo, &selected)?;
    let ghost expected = below_ranges(repo, commit_ids@)->Ok_0;
    let mut below: Vec<Option<ObjectId>> = Vec::with_capacity(ranges.len());
    let mut i: usize = 0;
    while i < ranges.len()
        invariant
            i <= ranges.len(),
            lists_parents(repo, selected@, parents@),
            selected@ == distinct(commit_ids@),
            plan(repo, commit_ids@) == Ok::<Seq<PlannedCommitChange>, StopView>(ranges@),
            below_ranges(repo, commit_ids@) == Ok::<_, StopView>(expected),
            below@ == expected.take(i as int),
        decreases ranges.len() - i,
    {
        proof {
            lemma_ranges_are_change_ranges(repo, selected@, selected@, i as int);
        }
        let lowest = find_chain_end(repo, &selected, &parents, ranges[i].commit_id);
        let commit = match lowest {
            Some(lowest) => first_parent_of(repo, lowest)?,
            None => None,
        };
        below.push(commit);
        assert(below@ =~= expected.take(i + 1));
        i = i + 1;
    }
    assert(expected.take(i as int) =~= expected);
    Ok(below)
}

/// [`plan_commit_changes_for_merge`] under the name that tests use.
pub fn plan_commit_changes_for_merge_for_tests(
    repo: &Repository,
    commit_ids: Vec<ObjectId>,
) -> (r: Result<Vec<PlannedCommitChange>, Stop>)
    ensures
        match plan(repo, commit_ids@) {
            Ok(ranges) => r is Ok && r->Ok_0@ == ranges,
            Err(stop) => r is Err && r->Err_0@ == stop,
        },
{
    plan_commit_changes_for_merge(repo, commit_ids)
}

} // verus!

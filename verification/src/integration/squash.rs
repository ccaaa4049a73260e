//! Making one commit of several.
use crate::bytes::copy_ids;
use crate::integration::editor::{
    agrees, agrees_in_view, commit_reply, maybe_node_reply, message_reply, nodes_reply,
    CommandView, CommitDraft, CommitDraftView, DateMode, Editor, Reply, Run, Selector, Step,
};
use crate::merge::{force_ours, merge_outcome, MergeCommitChangesOutcome, OutcomeView};
use crate::object_id::ObjectId;
use crate::plan::{below_ranges, commits_below_ranges, deduplicate_commit_ids, distinct};
use crate::repository::{ConflictedTrees, Repository};
use crate::stop::{Failure, FailureView, Stop, StopView};
use vstd::prelude::*;
use vstd::utf8::encode_utf8;

verus! {

/// The nodes of commits, so far as the graph has them.
pub open spec fn run_try_select_all(
    replies: Seq<Reply>,
    at: nat,
    commits: Seq<ObjectId>,
    found: Seq<Option<Selector>>,
) -> Run<Seq<Option<Selector>>>
    decreases commits.len(),
{
    if commits.len() == 0 {
        Run::Done { value: found, next: at }
    } else {
        match maybe_node_reply(
            replies,
            at,
            CommandView::TrySelectCommit { id: commits.first() },
        ) {
            Run::Stopped(stop) => Run::Stopped(stop),
            Run::Done { value, next } => run_try_select_all(
                replies,
                next,
                commits.drop_first(),
                found.push(value),
            ),
        }
    }
}

/// The commits of nodes.
pub open spec fn run_commits_of(
    replies: Seq<Reply>,
    at: nat,
    nodes: Seq<Selector>,
    found: Seq<ObjectId>,
) -> Run<Seq<ObjectId>>
    decreases nodes.len(),
{
    if nodes.len() == 0 {
        Run::Done { value: found, next: at }
    } else {
        match commit_reply(
            replies,
            at,
            CommandView::FindSelectableCommit { selector: nodes.first() },
        ) {
            Run::Stopped(stop) => Run::Stopped(stop),
            Run::Done { value, next } => run_commits_of(
                replies,
                next,
                nodes.drop_first(),
                found.push(value),
            ),
        }
    }
}

/// Whether a node was found for every commit.
pub open spec fn all_found(found: Seq<Option<Selector>>) -> bool {
    forall|k: int| 0 <= k < found.len() ==> (#[trigger] found[k]) is Some
}

/// The commits of a squash in order: parents before children if the graph has all of them,
/// otherwise as they were named.
pub open spec fn run_ordered(replies: Seq<Reply>, at: nat, commits: Seq<ObjectId>) -> Run<
    Seq<ObjectId>,
> {
    match run_try_select_all(replies, at, commits, Seq::empty()) {
        Run::Stopped(stop) => Run::Stopped(stop),
        Run::Done { value: found, next } => if all_found(found) {
            match nodes_reply(
                replies,
                next,
                CommandView::OrderByParentage {
                    selectors: found.map_values(|node: Option<Selector>| node->Some_0),
                },
            ) {
                Run::Stopped(stop) => Run::Stopped(stop),
                Run::Done { value: nodes, next } => run_commits_of(
                    replies,
                    next,
                    nodes,
                    Seq::empty(),
                ),
            }
        } else {
            Run::Done { value: commits, next }
        },
    }
}

/// The tree and the message of a commit that records the outcome of a merge: if there is a
/// conflict, the tree stores it and the message is marked.
pub open spec fn recorded_outcome(
    repo: &Repository,
    outcome: OutcomeView,
    message: Seq<u8>,
) -> Result<(ObjectId, Seq<u8>), StopView> {
    match outcome.conflict {
        None => Ok((outcome.tree_id, message)),
        Some(conflict) => match repo.spec_conflicted_tree(
            outcome.tree_id,
            ConflictedTrees {
                base: conflict.base_tree_id,
                ours: conflict.ours_tree_id,
                theirs: conflict.theirs_tree_id,
            },
            conflict.conflict_entries,
        ) {
            Err(stop) => Err(stop),
            Ok(tree) => match repo.spec_conflict_markers(message) {
                Err(stop) => Err(stop),
                Ok(marked) => Ok((tree, marked)),
            },
        },
    }
}

/// Whether none of the ranges that have these commits below them reaches down to a root.
pub open spec fn all_below(below: Seq<Option<ObjectId>>) -> bool {
    forall|k: int| 0 <= k < below.len() ==> (#[trigger] below[k]) is Some
}

/// The merge base of commits: a single commit is its own.
pub open spec fn shared_base(repo: &Repository, commits: Seq<ObjectId>) -> Result<
    ObjectId,
    StopView,
> {
    if distinct(commits).len() == 1 {
        Ok(distinct(commits)[0])
    } else {
        repo.spec_octopus_base(distinct(commits))
    }
}

/// The parents of a commit made of several: the merge base of the commits below their ranges, or
/// none if a range reaches down to a root, below which there is only the empty tree.
pub open spec fn squash_parents(repo: &Repository, ordered: Seq<ObjectId>) -> Result<
    Seq<ObjectId>,
    StopView,
> {
    match below_ranges(repo, ordered) {
        Err(stop) => Err(stop),
        Ok(below) => if !all_below(below) {
            Ok(Seq::empty())
        } else {
            match shared_base(
                repo,
                below.map_values(|commit: Option<ObjectId>| commit->Some_0),
            ) {
                Err(stop) => Err(stop),
                Ok(base) => Ok(seq![base]),
            }
        },
    }
}

/// The step that picks a commit made of several. It holds their merged changes, stands on the
/// merge base of what lies below them, and is otherwise like the last of them.
pub open spec fn run_squash(
    repo: &Repository,
    replies: Seq<Reply>,
    at: nat,
    commits: Seq<ObjectId>,
    message: Option<Seq<char>>,
) -> Run<Step> {
    if commits.len() < 2 {
        Run::Stopped(StopView::Failed(FailureView::SquashTooSmall))
    } else {
        match run_ordered(replies, at, commits) {
            Run::Stopped(stop) => Run::Stopped(stop),
            Run::Done { value: ordered, next } => run_squash_ordered(
                repo,
                replies,
                next,
                ordered,
                message,
            ),
        }
    }
}

/// As [`run_squash`], for commits in order.
pub open spec fn run_squash_ordered(
    repo: &Repository,
    replies: Seq<Reply>,
    at: nat,
    ordered: Seq<ObjectId>,
    message: Option<Seq<char>>,
) -> Run<Step> {
    match merge_outcome(repo, ordered, force_ours()) {
        Err(stop) => Run::Stopped(stop),
        Ok(outcome) => match squash_parents(repo, ordered) {
            Err(stop) => Run::Stopped(stop),
            Ok(parents) => match message_reply(
                replies,
                at,
                CommandView::FindCommit { id: ordered.last() },
            ) {
                Run::Stopped(stop) => Run::Stopped(stop),
                Run::Done { value: tip_message, next } => match recorded_outcome(
                    repo,
                    outcome,
                    match message {
                        Some(text) => encode_utf8(text),
                        None => tip_message,
                    },
                ) {
                    Err(stop) => Run::Stopped(stop),
                    Ok((tree, message)) => match commit_reply(
                        replies,
                        next,
                        CommandView::NewCommit {
                            draft: CommitDraftView {
                                like: ordered.last(),
                                parents,
                                tree,
                                message,
                            },
                            dates: DateMode::CommitterUpdateAuthorKeep,
                        },
                    ) {
                        Run::Stopped(stop) => Run::Stopped(stop),
                        Run::Done { value: id, next } => Run::Done {
                            value: Step::NewPick { id },
                            next,
                        },
                    },
                },
            },
        },
    }
}

/// Finds the nodes of commits, so far as the graph has them.
fn try_select_all(editor: &mut Editor, commit_ids: &[ObjectId]) -> (r: Result<
    Vec<Option<Selector>>,
    Stop,
>)
    ensures
        agrees_in_view(
            run_try_select_all(
                old(editor).replies@,
                old(editor).next as nat,
                commit_ids@,
                Seq::empty(),
            ),
            *old(editor),
            *final(editor),
            r,
        ),
{
    let mut found: Vec<Option<Selector>> = Vec::with_capacity(commit_ids.len());
    let mut i: usize = 0;
    let ghost replies = editor.replies@;
    let ghost run = run_try_select_all(replies, editor.next as nat, commit_ids@, Seq::empty());
    assert(commit_ids@.skip(0) =~= commit_ids@);
    while i < commit_ids.len()
        invariant
            i <= commit_ids.len(),
            replies == old(editor).replies@,
            editor.replies@ == replies,
            run == run_try_select_all(
                replies,
                old(editor).next as nat,
                commit_ids@,
                Seq::empty(),
            ),
            run == run_try_select_all(
                replies,
                editor.next as nat,
                commit_ids@.skip(i as int),
                found@,
            ),
        decreases commit_ids.len() - i,
    {
        assert(commit_ids@.skip(i as int).first() == commit_ids@[i as int]);
        assert(commit_ids@.skip(i as int).drop_first() =~= commit_ids@.skip(i + 1));
        let node = editor.try_select_commit(commit_ids[i])?;
        found.push(node);
        i = i + 1;
    }
    Ok(found)
}

/// Finds the commits of nodes.
fn commits_of(editor: &mut Editor, nodes: &Vec<Selector>) -> (r: Result<Vec<ObjectId>, Stop>)
    ensures
        agrees_in_view(
            run_commits_of(
                old(editor).replies@,
                old(editor).next as nat,
                nodes@,
                Seq::empty(),
            ),
            *old(editor),
            *final(editor),
            r,
        ),
{
    let mut found: Vec<ObjectId> = Vec::with_capacity(nodes.len());
    let mut i: usize = 0;
    let ghost replies = editor.replies@;
    let ghost run = run_commits_of(replies, editor.next as nat, nodes@, Seq::empty());
    assert(nodes@.skip(0) =~= nodes@);
    while i < nodes.len()
        invariant
            i <= nodes.len(),
            replies == old(editor).replies@,
            editor.replies@ == replies,
            run == run_commits_of(replies, old(editor).next as nat, nodes@, Seq::empty()),
            run == run_commits_of(replies, editor.next as nat, nodes@.skip(i as int), found@),
        decreases nodes.len() - i,
    {
        assert(nodes@.skip(i as int).first() == nodes@[i as int]);
        assert(nodes@.skip(i as int).drop_first() =~= nodes@.skip(i + 1));
        let id = editor.find_selectable_commit(nodes[i])?;
        found.push(id);
        i = i + 1;
    }
    Ok(found)
}

/// The nodes if one was found for every commit.
fn all_nodes(found: &Vec<Option<Selector>>) -> (r: Option<Vec<Selector>>)
    ensures
        r is Some <==> all_found(found@),
        r matches Some(nodes) ==> nodes@ == found@.map_values(
            |node: Option<Selector>| node->Some_0,
        ),
{
    let ghost expected = found@.map_values(|node: Option<Selector>| node->Some_0);
    let mut nodes: Vec<Selector> = Vec::with_capacity(found.len());
    let mut i: usize = 0;
    while i < found.len()
        invariant
            i <= found.len(),
            expected == found@.map_values(|node: Option<Selector>| node->Some_0),
            nodes@ == expected.take(i as int),
            forall|k: int| 0 <= k < i ==> (#[trigger] found@[k]) is Some,
        decreases found.len() - i,
    {
        match found[i] {
            Some(node) => {
                nodes.push(node);
                assert(nodes@ =~= expected.take(i + 1));
            },
            None => {
                assert(!(found@[i as int] is Some));
                return None;
            },
        }
        i = i + 1;
    }
    assert(expected.take(i as int) =~= expected);
    Some(nodes)
}

/// Puts the commits of a squash in order.
fn ordered_commits(editor: &mut Editor, commit_ids: &[ObjectId]) -> (r: Result<
    Vec<ObjectId>,
    Stop,
>)
    ensures
        agrees_in_view(
            run_ordered(old(editor).replies@, old(editor).next as nat, commit_ids@),
            *old(editor),
            *final(editor),
            r,
        ),
{
    let maybe_selectors = try_select_all(editor, commit_ids)?;
    match all_nodes(&maybe_selectors) {
        Some(selectors) => {
            let ordered_selectors = editor.order_commit_selectors_by_parentage(selectors)?;
            commits_of(editor, &ordered_selectors)
        },
        None => Ok(copy_ids(commit_ids)),
    }
}

/// The commits if there is one below every range.
fn all_commits(below: &Vec<Option<ObjectId>>) -> (r: Option<Vec<ObjectId>>)
    ensures
        r is Some <==> all_below(below@),
        r matches Some(commits) ==> commits@ == below@.map_values(
            |commit: Option<ObjectId>| commit->Some_0,
        ),
{
    let ghost expected = below@.map_values(|commit: Option<ObjectId>| commit->Some_0);
    let mut commits: Vec<ObjectId> = Vec::with_capacity(below.len());
    let mut i: usize = 0;
    while i < below.len()
        invariant
            i <= below.len(),
            expected == below@.map_values(|commit: Option<ObjectId>| commit->Some_0),
            commits@ == expected.take(i as int),
            forall|k: int| 0 <= k < i ==> (#[trigger] below@[k]) is Some,
        decreases below.len() - i,
    {
        match below[i] {
            Some(commit) => {
                commits.push(commit);
                assert(commits@ =~= expected.take(i + 1));
            },
            None => {
                assert(!(below@[i as int] is Some));
                return None;
            },
        }
        i = i + 1;
    }
    assert(expected.take(i as int) =~= expected);
    Some(commits)
}

/// Finds the parents of a commit made of several: the merge base of the commits below their
/// ranges, or none if a range reaches down to a root.
pub fn parents_of_squash(repo: &Repository, ordered_commit_ids: &[ObjectId]) -> (r: Result<
    Vec<ObjectId>,
    Stop,
>)
    ensures
        match squash_parents(repo, ordered_commit_ids@) {
            Ok(parents) => r is Ok && r->Ok_0@ == parents,
            Err(stop) => r is Err && r->Err_0@ == stop,
        },
{
    let below = commits_below_ranges(repo, ordered_commit_ids)?;
    let mut parents: Vec<ObjectId> = Vec::new();
    match all_commits(&below) {
        Some(commits) => {
            let candidates = deduplicate_commit_ids(commits);
            if candidates.len() == 1 {
                parents.push(candidates[0]);
            } else {
                parents.push(repo.merge_base_octopus(candidates.as_slice())?);
            }
            assert(parents@ =~= seq![parents@[0]]);
        },
        None => {
            assert(parents@ =~= Seq::empty());
        },
    }
    Ok(parents)
}

/// Makes a commit record the outcome of a merge. If that fails, the commit stays as it was.
pub fn apply_merge_commit_changes_outcome(
    repo: &Repository,
    commit: &mut CommitDraft,
    outcome: MergeCommitChangesOutcome,
    message: Vec<u8>,
) -> (r: Result<(), Stop>)
    ensures
        match recorded_outcome(repo, outcome@, message@) {
            Ok((tree, recorded)) => {
                &&& r is Ok
                &&& final(commit)@ == (CommitDraftView { tree, message: recorded, ..old(commit)@ })
            },
            Err(stop) => r is Err && r->Err_0@ == stop && final(commit)@ == old(commit)@,
        },
{
    match outcome.conflict {
        Some(conflict) => {
            let trees = ConflictedTrees {
                base: conflict.base_tree_id,
                ours: conflict.ours_tree_id,
                theirs: conflict.theirs_tree_id,
            };
            let tree = repo.write_conflicted_tree(
                outcome.tree_id,
                trees,
                conflict.conflict_entries,
            )?;
            let marked = repo.add_conflict_markers(message.as_slice())?;
            commit.tree = tree;
            commit.message = marked;
        },
        None => {
            commit.tree = outcome.tree_id;
            commit.message = message;
        },
    }
    Ok(())
}

/// Makes one commit of several, and returns the step that picks it.
///
/// The commit stands on the merge base of what lies below the commits, so that what it changes is
/// what they change together, also where one of them stands on another. If one of them is a root,
/// nothing lies below it and the commit is a root too.
pub fn squash_step_for_editor(
    repo: &Repository,
    editor: &mut Editor,
    commit_ids: &[ObjectId],
    message: Option<&str>,
) -> (r: Result<Step, Stop>)
    ensures
        agrees(
            run_squash(
                repo,
                old(editor).replies@,
                old(editor).next as nat,
                commit_ids@,
                match message {
                    Some(text) => Some(text@),
                    None => None,
                },
            ),
            *old(editor),
            *final(editor),
            r,
        ),
{
    if commit_ids.len() < 2 {
        return Err(Stop::Failed(Failure::SquashTooSmall));
    }
    let ordered_commit_ids = ordered_commits(editor, commit_ids)?;
    let merge_outcome = repo.merge_commit_changes_to_tree(
        copy_ids(ordered_commit_ids.as_slice()),
        repo.merge_options_force_ours(),
    )?;
    let parents = parents_of_squash(repo, ordered_commit_ids.as_slice())?;
    assert(ordered_commit_ids.len() > 0);
    let tip_commit_id = ordered_commit_ids[ordered_commit_ids.len() - 1];
    let tip_message = editor.find_commit(tip_commit_id)?;
    let commit_message = match message {
        Some(text) => copy_text(text),
        None => tip_message,
    };
    let mut squashed_commit = CommitDraft {
        like: tip_commit_id,
        parents,
        tree: merge_outcome.tree_id,
        message: Vec::new(),
    };
    apply_merge_commit_changes_outcome(repo, &mut squashed_commit, merge_outcome, commit_message)?;
    let new_commit_id = editor.new_commit_untracked(
        squashed_commit,
        DateMode::CommitterUpdateAuthorKeep,
    )?;
    Ok(Step::NewPick { id: new_commit_id })
}

/// The bytes of a text.
fn copy_text(text: &str) -> (r: Vec<u8>)
    ensures
        r@ == encode_utf8(text@),
{
    crate::bytes::copy_bytes(text.as_bytes())
}

} // verus!

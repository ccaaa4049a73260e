//! The steps that an integration starts out with.
use crate::bytes::{contains_id, copy_bytes};
use crate::integration::steps::{
    step_views, IntegrationStepView, InteractiveIntegration, InteractiveIntegrationStep,
};
use crate::object_id::ObjectId;
use crate::repository::Repository;
use crate::stop::{Failure, FailureView, Stop, StopView};
use vstd::prelude::*;

verus! {

/// The tip of a branch, the reference that it tracks, and the tip of that.
pub open spec fn branch_tips(repo: &Repository, name: Seq<u8>) -> Result<
    (ObjectId, Seq<u8>, ObjectId),
    StopView,
> {
    match repo.spec_reference(name) {
        Err(stop) => Err(stop),
        Ok(None) => Err(StopView::Failed(FailureView::LocalBranchNotFound { name })),
        Ok(Some(local_tip)) => match repo.spec_tracking_branch(name) {
            Err(stop) => Err(stop),
            Ok(None) => Err(StopView::Failed(FailureView::NoTrackingBranch { name })),
            Ok(Some(tracking)) => match repo.spec_reference(tracking) {
                Err(stop) => Err(stop),
                Ok(None) => Err(
                    StopView::Failed(FailureView::TrackingBranchNotFound { name, tracking }),
                ),
                Ok(Some(upstream_tip)) => Ok((local_tip, tracking, upstream_tip)),
            },
        },
    }
}

/// The commits of a branch and of its upstream, from their tips along first parents down to
/// their merge base, and the merge base.
pub open spec fn commits_until_base(repo: &Repository, name: Seq<u8>) -> Result<
    (Seq<ObjectId>, Seq<ObjectId>, ObjectId),
    StopView,
> {
    match branch_tips(repo, name) {
        Err(stop) => Err(stop),
        Ok((local_tip, tracking, upstream_tip)) => match repo.spec_merge_base(
            local_tip,
            upstream_tip,
        ) {
            Err(stop) => Err(stop),
            Ok(None) => Err(StopView::Failed(FailureView::NoMergeBase { name, tracking })),
            Ok(Some(merge_base)) => match repo.spec_first_parents(local_tip, merge_base) {
                Err(stop) => Err(stop),
                Ok(local) => match repo.spec_first_parents(upstream_tip, merge_base) {
                    Err(stop) => Err(stop),
                    Ok(upstream) => Ok((local, upstream, merge_base)),
                },
            },
        },
    }
}

/// The changes that commits are versions of.
pub open spec fn change_ids(repo: &Repository, commits: Seq<ObjectId>) -> Result<
    Seq<Seq<char>>,
    StopView,
>
    decreases commits.len(),
{
    if commits.len() == 0 {
        Ok(Seq::empty())
    } else {
        match change_ids(repo, commits.drop_last()) {
            Err(stop) => Err(stop),
            Ok(ids) => match repo.spec_change_id(commits.last()) {
                Err(stop) => Err(stop),
                Ok(id) => Ok(ids.push(id)),
            },
        }
    }
}

/// The upstream commit that a local commit is a version of: itself if it is upstream, or else the
/// first that is a version of the same change.
pub open spec fn counterpart(
    repo: &Repository,
    upstream: Seq<ObjectId>,
    upstream_changes: Seq<Seq<char>>,
    commit: ObjectId,
) -> Result<Option<ObjectId>, StopView> {
    if upstream.contains(commit) {
        Ok(Some(commit))
    } else {
        match repo.spec_change_id(commit) {
            Err(stop) => Err(stop),
            Ok(change) => if upstream_changes.contains(change) {
                Ok(Some(upstream[upstream_changes.index_of_first(change)->Some_0]))
            } else {
                Ok(None)
            },
        }
    }
}

/// The counterparts of local commits.
pub open spec fn counterparts(
    repo: &Repository,
    upstream: Seq<ObjectId>,
    upstream_changes: Seq<Seq<char>>,
    local: Seq<ObjectId>,
) -> Result<Seq<Option<ObjectId>>, StopView>
    decreases local.len(),
{
    if local.len() == 0 {
        Ok(Seq::empty())
    } else {
        match counterparts(repo, upstream, upstream_changes, local.drop_last()) {
            Err(stop) => Err(stop),
            Ok(found) => match counterpart(repo, upstream, upstream_changes, local.last()) {
                Err(stop) => Err(stop),
                Ok(commit) => Ok(found.push(commit)),
            },
        }
    }
}

/// The local commits that have a counterpart, or those that have none.
pub open spec fn locals(
    local: Seq<ObjectId>,
    found: Seq<Option<ObjectId>>,
    with_counterpart: bool,
) -> Seq<ObjectId>
    decreases local.len(),
{
    if local.len() == 0 {
        Seq::empty()
    } else {
        let rest = locals(local.drop_last(), found.drop_last(), with_counterpart);
        if (found.last() is Some) == with_counterpart {
            rest.push(local.last())
        } else {
            rest
        }
    }
}

/// The upstream commits that are no counterpart of a local commit.
pub open spec fn remote_only(upstream: Seq<ObjectId>, found: Seq<Option<ObjectId>>) -> Seq<
    ObjectId,
> {
    upstream.filter(|commit: ObjectId| !found.contains(Some(commit)))
}

/// Steps that keep commits.
pub open spec fn picks(commits: Seq<ObjectId>) -> Seq<IntegrationStepView> {
    commits.map_values(|commit_id: ObjectId| IntegrationStepView::Pick { commit_id })
}

/// Steps that bring upstream commits in.
pub open spec fn upstream_picks(commits: Seq<ObjectId>) -> Seq<IntegrationStepView> {
    commits.map_values(|commit_id: ObjectId| IntegrationStepView::PickUpstream { commit_id })
}

/// The steps for local and upstream commits: first the commits that are only local, then those
/// that are only upstream, then the local commits with a counterpart upstream.
pub open spec fn partitioned_steps(
    local: Seq<ObjectId>,
    upstream: Seq<ObjectId>,
    found: Seq<Option<ObjectId>>,
) -> Seq<IntegrationStepView> {
    picks(locals(local, found, false)) + upstream_picks(remote_only(upstream, found)) + picks(
        locals(local, found, true),
    )
}

/// The steps for local and upstream commits.
pub open spec fn steps_for_commits(
    repo: &Repository,
    local: Seq<ObjectId>,
    upstream: Seq<ObjectId>,
) -> Result<Seq<IntegrationStepView>, StopView> {
    match change_ids(repo, upstream) {
        Err(stop) => Err(stop),
        Ok(changes) => match counterparts(repo, upstream, changes, local) {
            Err(stop) => Err(stop),
            Ok(found) => Ok(partitioned_steps(local, upstream, found)),
        },
    }
}

/// The steps that the integration of a branch starts out with, and its merge base.
pub open spec fn initial_integration(repo: &Repository, name: Seq<u8>) -> Result<
    (Seq<IntegrationStepView>, ObjectId),
    StopView,
> {
    match commits_until_base(repo, name) {
        Err(stop) => Err(stop),
        Ok((local, upstream, merge_base)) => match steps_for_commits(repo, local, upstream) {
            Err(stop) => Err(stop),
            Ok(steps) => Ok((steps, merge_base)),
        },
    }
}

/// What the first commits lack, all lack.
proof fn lemma_change_ids_prefix(repo: &Repository, commits: Seq<ObjectId>, n: nat)
    requires
        n <= commits.len(),
        change_ids(repo, commits.take(n as int)) is Err,
    ensures
        change_ids(repo, commits) == change_ids(repo, commits.take(n as int)),
    decreases commits.len(),
{
    if n < commits.len() {
        assert(commits.drop_last().take(n as int) =~= commits.take(n as int));
        lemma_change_ids_prefix(repo, commits.drop_last(), n);
    } else {
        assert(commits.take(n as int) =~= commits);
    }
}

/// What the first commits lack, all lack.
proof fn lemma_counterparts_prefix(
    repo: &Repository,
    upstream: Seq<ObjectId>,
    upstream_changes: Seq<Seq<char>>,
    local: Seq<ObjectId>,
    n: nat,
)
    requires
        n <= local.len(),
        counterparts(repo, upstream, upstream_changes, local.take(n as int)) is Err,
    ensures
        counterparts(repo, upstream, upstream_changes, local) == counterparts(
            repo,
            upstream,
            upstream_changes,
            local.take(n as int),
        ),
    decreases local.len(),
{
    if n < local.len() {
        assert(local.drop_last().take(n as int) =~= local.take(n as int));
        lemma_counterparts_prefix(repo, upstream, upstream_changes, local.drop_last(), n);
    } else {
        assert(local.take(n as int) =~= local);
    }
}

/// Reads the tip of a branch, the reference that it tracks, and the tip of that.
pub fn get_branch_tips_and_upstream(ref_name: &[u8], repo: &Repository) -> (r: Result<
    (ObjectId, Vec<u8>, ObjectId),
    Stop,
>)
    ensures
        match branch_tips(repo, ref_name@) {
            Ok((local_tip, tracking, upstream_tip)) => {
                &&& r is Ok
                &&& r->Ok_0.0 == local_tip
                &&& r->Ok_0.1@ == tracking
                &&& r->Ok_0.2 == upstream_tip
            },
            Err(stop) => r is Err && r->Err_0@ == stop,
        },
{
    let local_tip = match repo.find_reference(ref_name)? {
        Some(tip) => tip,
        None => return Err(
            Stop::Failed(Failure::LocalBranchNotFound { name: copy_bytes(ref_name) }),
        ),
    };
    let upstream_ref_name = match repo.branch_remote_tracking_ref_name(ref_name)? {
        Some(name) => name,
        None => return Err(
            Stop::Failed(Failure::NoTrackingBranch { name: copy_bytes(ref_name) }),
        ),
    };
    let upstream_tip = match repo.find_reference(upstream_ref_name.as_slice())? {
        Some(tip) => tip,
        None => return Err(
            Stop::Failed(
                Failure::TrackingBranchNotFound {
                    name: copy_bytes(ref_name),
                    tracking: upstream_ref_name,
                },
            ),
        ),
    };
    Ok((local_tip, upstream_ref_name, upstream_tip))
}

/// Reads the commits of a branch and of its upstream, from their tips along first parents down
/// to their merge base, and the merge base.
pub fn get_commits_until_merge_base<'a>(ref_name: &[u8], repo: &'a Repository) -> (r: Result<
    (&'a Vec<ObjectId>, &'a Vec<ObjectId>, ObjectId),
    Stop,
>)
    ensures
        match commits_until_base(repo, ref_name@) {
            Ok((local, upstream, merge_base)) => {
                &&& r is Ok
                &&& r->Ok_0.0@ == local
                &&& r->Ok_0.1@ == upstream
                &&& r->Ok_0.2 == merge_base
            },
            Err(stop) => r is Err && r->Err_0@ == stop,
        },
{
    let (local_tip, upstream_ref_name, upstream_tip) = get_branch_tips_and_upstream(
        ref_name,
        repo,
    )?;
    let merge_base = match repo.merge_base(local_tip, upstream_tip)? {
        Some(base) => base,
        None => return Err(
            Stop::Failed(
                Failure::NoMergeBase { name: copy_bytes(ref_name), tracking: upstream_ref_name },
            ),
        ),
    };
    let local_commits = repo.branch_commits_until(local_tip, merge_base)?;
    let upstream_commits = repo.branch_commits_until(upstream_tip, merge_base)?;
    Ok((local_commits, upstream_commits, merge_base))
}

/// The texts of a list.
pub open spec fn texts(list: Seq<&String>) -> Seq<Seq<char>> {
    list.map_values(|text: &String| text@)
}

/// Reads the changes that commits are versions of.
fn read_change_ids<'a>(repo: &'a Repository, commits: &Vec<ObjectId>) -> (r: Result<
    Vec<&'a String>,
    Stop,
>)
    ensures
        match change_ids(repo, commits@) {
            Ok(ids) => r is Ok && texts(r->Ok_0@) == ids && ids.len() == commits.len(),
            Err(stop) => r is Err && r->Err_0@ == stop,
        },
{
    let mut ids: Vec<&'a String> = Vec::with_capacity(commits.len());
    let mut i: usize = 0;
    assert(texts(ids@) =~= Seq::empty());
    while i < commits.len()
        invariant
            i <= commits.len(),
            ids.len() == i,
            change_ids(repo, commits@.take(i as int)) == Ok::<_, StopView>(texts(ids@)),
        decreases commits.len() - i,
    {
        let ghost prefix = commits@.take(i + 1);
        assert(prefix.drop_last() =~= commits@.take(i as int));
        assert(prefix.last() == commits@[i as int]);
        match repo.effective_change_id(commits[i]) {
            Ok(id) => {
                let ghost before = ids@;
                ids.push(id);
                assert(texts(ids@) =~= texts(before).push(id@));
            },
            Err(stop) => {
                proof {
                    lemma_change_ids_prefix(repo, commits@, (i + 1) as nat);
                }
                return Err(stop);
            },
        }
        i = i + 1;
    }
    assert(commits@.take(i as int) =~= commits@);
    Ok(ids)
}

/// The position of the first text that equals another.
fn position_of(list: &Vec<&String>, text: &String) -> (r: Option<usize>)
    ensures
        match r {
            Some(i) => texts(list@).contains(text@) && texts(list@).index_of_first(text@) == Some(
                i as int,
            ) && i < list.len(),
            None => !texts(list@).contains(text@),
        },
{
    let ghost all = texts(list@);
    let mut i: usize = 0;
    while i < list.len()
        invariant
            i <= list.len(),
            all == texts(list@),
            forall|k: int| 0 <= k < i ==> all[k] != text@,
        decreases list.len() - i,
    {
        if *list[i] == *text {
            assert(all[i as int] == text@);
            proof {
                all.index_of_first_ensures(text@);
            }
            return Some(i);
        }
        assert(all[i as int] != text@);
        i = i + 1;
    }
    None
}

/// Finds the upstream commit that a local commit is a version of.
fn find_counterpart(
    repo: &Repository,
    upstream_commits: &Vec<ObjectId>,
    upstream_changes: &Vec<&String>,
    commit_id: ObjectId,
) -> (r: Result<Option<ObjectId>, Stop>)
    requires
        upstream_changes.len() == upstream_commits.len(),
    ensures
        match counterpart(repo, upstream_commits@, texts(upstream_changes@), commit_id) {
            Ok(found) => r == Ok::<Option<ObjectId>, Stop>(found),
            Err(stop) => r is Err && r->Err_0@ == stop,
        },
{
    if contains_id(upstream_commits.as_slice(), commit_id) {
        return Ok(Some(commit_id));
    }
    let change_id = repo.effective_change_id(commit_id)?;
    match position_of(upstream_changes, change_id) {
        Some(i) => Ok(Some(upstream_commits[i])),
        None => Ok(None),
    }
}

/// Finds the counterparts of local commits.
fn find_counterparts(
    repo: &Repository,
    upstream_commits: &Vec<ObjectId>,
    upstream_changes: &Vec<&String>,
    local_commits: &Vec<ObjectId>,
) -> (r: Result<Vec<Option<ObjectId>>, Stop>)
    requires
        upstream_changes.len() == upstream_commits.len(),
    ensures
        match counterparts(
            repo,
            upstream_commits@,
            texts(upstream_changes@),
            local_commits@,
        ) {
            Ok(found) => r is Ok && r->Ok_0@ == found && found.len() == local_commits.len(),
            Err(stop) => r is Err && r->Err_0@ == stop,
        },
{
    let ghost upstream = upstream_commits@;
    let ghost changes = texts(upstream_changes@);
    let mut found: Vec<Option<ObjectId>> = Vec::with_capacity(local_commits.len());
    let mut i: usize = 0;
    while i < local_commits.len()
        invariant
            i <= local_commits.len(),
            found.len() == i,
            upstream_changes.len() == upstream_commits.len(),
            upstream == upstream_commits@,
            changes == texts(upstream_changes@),
            counterparts(repo, upstream, changes, local_commits@.take(i as int)) == Ok::<
                _,
                StopView,
            >(found@),
        decreases local_commits.len() - i,
    {
        let ghost prefix = local_commits@.take(i + 1);
        assert(prefix.drop_last() =~= local_commits@.take(i as int));
        assert(prefix.last() == local_commits@[i as int]);
        match find_counterpart(repo, upstream_commits, upstream_changes, local_commits[i]) {
            Ok(commit) => found.push(commit),
            Err(stop) => {
                proof {
                    lemma_counterparts_prefix(
                        repo,
                        upstream,
                        changes,
                        local_commits@,
                        (i + 1) as nat,
                    );
                }
                return Err(stop);
            },
        }
        i = i + 1;
    }
    assert(local_commits@.take(i as int) =~= local_commits@);
    Ok(found)
}

/// Adds steps that keep the local commits that have a counterpart, or those that have none.
fn push_local_picks(
    steps: &mut Vec<InteractiveIntegrationStep>,
    local_commits: &Vec<ObjectId>,
    found: &Vec<Option<ObjectId>>,
    with_counterpart: bool,
)
    requires
        found.len() == local_commits.len(),
    ensures
        step_views(final(steps)@) == step_views(old(steps)@) + picks(
            locals(local_commits@, found@, with_counterpart),
        ),
{
    let ghost before = step_views(steps@);
    let mut i: usize = 0;
    assert(before =~= before + picks(Seq::empty()));
    while i < local_commits.len()
        invariant
            i <= local_commits.len(),
            found.len() == local_commits.len(),
            step_views(steps@) == before + picks(
                locals(
                    local_commits@.take(i as int),
                    found@.take(i as int),
                    with_counterpart,
                ),
            ),
        decreases local_commits.len() - i,
    {
        let ghost shorter = locals(
            local_commits@.take(i as int),
            found@.take(i as int),
            with_counterpart,
        );
        assert(local_commits@.take(i + 1).drop_last() =~= local_commits@.take(i as int));
        assert(found@.take(i + 1).drop_last() =~= found@.take(i as int));
        if found[i].is_some() == with_counterpart {
            let ghost steps_before = steps@;
            let commit_id = local_commits[i];
            let step = InteractiveIntegrationStep::Pick { commit_id };
            steps.push(step);
            assert(step_views(steps@) =~= step_views(steps_before).push(step@));
            assert(picks(shorter.push(commit_id)) =~= picks(shorter).push(
                IntegrationStepView::Pick { commit_id },
            ));
        }
        i = i + 1;
    }
    assert(local_commits@.take(i as int) =~= local_commits@);
    assert(found@.take(i as int) =~= found@);
}

/// Whether an upstream commit is a counterpart of a local commit.
fn is_counterpart(found: &Vec<Option<ObjectId>>, commit_id: ObjectId) -> (r: bool)
    ensures
        r == found@.contains(Some(commit_id)),
{
    let mut i: usize = 0;
    while i < found.len()
        invariant
            i <= found.len(),
            forall|k: int| 0 <= k < i ==> found@[k] != Some(commit_id),
        decreases found.len() - i,
    {
        if let Some(id) = found[i] {
            if id.same(&commit_id) {
                assert(found@[i as int] == Some(commit_id));
                return true;
            }
        }
        i = i + 1;
    }
    false
}

/// Adds steps that bring in the upstream commits that are no counterpart.
fn push_upstream_picks(
    steps: &mut Vec<InteractiveIntegrationStep>,
    upstream_commits: &Vec<ObjectId>,
    found: &Vec<Option<ObjectId>>,
)
    ensures
        step_views(final(steps)@) == step_views(old(steps)@) + upstream_picks(
            remote_only(upstream_commits@, found@),
        ),
{
    let ghost before = step_views(steps@);
    let mut i: usize = 0;
    proof {
        reveal(Seq::filter);
        assert(remote_only(upstream_commits@.take(0), found@) =~= Seq::empty());
        assert(before =~= before + upstream_picks(Seq::empty()));
    }
    while i < upstream_commits.len()
        invariant
            i <= upstream_commits.len(),
            step_views(steps@) == before + upstream_picks(
                remote_only(upstream_commits@.take(i as int), found@),
            ),
        decreases upstream_commits.len() - i,
    {
        let ghost shorter = remote_only(upstream_commits@.take(i as int), found@);
        proof {
            reveal(Seq::filter);
            assert(upstream_commits@.take(i + 1).drop_last() =~= upstream_commits@.take(
                i as int,
            ));
            assert(upstream_commits@.take(i + 1).last() == upstream_commits@[i as int]);
        }
        let commit_id = upstream_commits[i];
        if !is_counterpart(found, commit_id) {
            let ghost steps_before = steps@;
            let step = InteractiveIntegrationStep::PickUpstream { commit_id };
            steps.push(step);
            assert(step_views(steps@) =~= step_views(steps_before).push(step@));
            assert(upstream_picks(shorter.push(commit_id)) =~= upstream_picks(shorter).push(
                IntegrationStepView::PickUpstream { commit_id },
            ));
        }
        i = i + 1;
    }
    assert(upstream_commits@.take(i as int) =~= upstream_commits@);
}

/// The steps for local and upstream commits, given the counterparts of the local commits.
pub fn partition_into_steps(
    local_commits: &Vec<ObjectId>,
    upstream_commits: &Vec<ObjectId>,
    found: &Vec<Option<ObjectId>>,
) -> (r: Vec<InteractiveIntegrationStep>)
    requires
        found.len() == local_commits.len(),
    ensures
        step_views(r@) == partitioned_steps(local_commits@, upstream_commits@, found@),
{
    let mut initial_steps: Vec<InteractiveIntegrationStep> = Vec::new();
    assert(step_views(initial_steps@) =~= Seq::empty());
    push_local_picks(&mut initial_steps, local_commits, found, false);
    push_upstream_picks(&mut initial_steps, upstream_commits, found);
    push_local_picks(&mut initial_steps, local_commits, found, true);
    assert(step_views(initial_steps@) =~= partitioned_steps(
        local_commits@,
        upstream_commits@,
        found@,
    ));
    initial_steps
}

/// The steps that the integration of a branch's upstream starts out with.
///
/// The commits are listed from child to parent. Every local commit is kept, and every upstream
/// commit is brought in that is not a version of a local one.
pub fn get_initial_integration_steps_for_branch(ref_name: &[u8], repo: &Repository) -> (r: Result<
    InteractiveIntegration,
    Stop,
>)
    ensures
        match initial_integration(repo, ref_name@) {
            Ok((steps, merge_base)) => {
                &&& r is Ok
                &&& step_views(r->Ok_0.steps@) == steps
                &&& r->Ok_0.merge_base == merge_base
            },
            Err(stop) => r is Err && r->Err_0@ == stop,
        },
{
    let (local_commits, upstream_commits, merge_base) = get_commits_until_merge_base(
        ref_name,
        repo,
    )?;
    let upstream_changes = read_change_ids(repo, upstream_commits)?;
    let found = find_counterparts(repo, upstream_commits, &upstream_changes, local_commits)?;
    let steps = partition_into_steps(local_commits, upstream_commits, &found);
    Ok(InteractiveIntegration { steps, merge_base })
}

} // verus!

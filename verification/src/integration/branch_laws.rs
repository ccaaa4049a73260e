//! What the initial steps of a branch are, told from what is known of the branch.
use crate::integration::initial::{
    branch_tips, change_ids, commits_until_base, counterpart, counterparts, initial_integration,
    locals, picks, remote_only, steps_for_commits, upstream_picks,
};
use crate::integration::initial_laws::{lemma_change_of_each, lemma_counterparts_of_each};
use crate::integration::steps::IntegrationStepView;
use crate::object_id::ObjectId;
use crate::repository::Repository;
use crate::stop::{FailureView, StopView};
use vstd::prelude::*;

verus! {

/// Where a branch and its upstream part: their tips, the best common ancestor of these, and what
/// lies on each side of it along first parents, tips first.
pub struct Divergence {
    pub local_tip: ObjectId,
    pub tracking: Seq<u8>,
    pub upstream_tip: ObjectId,
    pub merge_base: ObjectId,
    pub local: Seq<ObjectId>,
    pub upstream: Seq<ObjectId>,
}

/// Whether this is what is known of a branch.
pub open spec fn is_known(repo: &Repository, name: Seq<u8>, parts: Divergence) -> bool {
    &&& repo.spec_reference(name) == Ok::<_, StopView>(Some(parts.local_tip))
    &&& repo.spec_tracking_branch(name) == Ok::<_, StopView>(Some(parts.tracking))
    &&& repo.spec_reference(parts.tracking) == Ok::<_, StopView>(Some(parts.upstream_tip))
    &&& repo.spec_merge_base(parts.local_tip, parts.upstream_tip) == Ok::<_, StopView>(
        Some(parts.merge_base),
    )
    &&& repo.spec_first_parents(parts.local_tip, parts.merge_base) == Ok::<_, StopView>(parts.local)
    &&& repo.spec_first_parents(parts.upstream_tip, parts.merge_base) == Ok::<_, StopView>(
        parts.upstream,
    )
}

/// Whether two commits are versions of one change.
pub open spec fn same_change(repo: &Repository, one: ObjectId, two: ObjectId) -> bool {
    repo.spec_change_id(one) is Ok && repo.spec_change_id(one) == repo.spec_change_id(two)
}

/// Whether a local commit is upstream already, as it is or in another version.
pub open spec fn is_upstream(
    repo: &Repository,
    upstream: Seq<ObjectId>,
    commit: ObjectId,
) -> bool {
    upstream.contains(commit) || exists|k: int|
        0 <= k < upstream.len() && same_change(repo, commit, #[trigger] upstream[k])
}

/// Whether an upstream commit is a local commit itself, or else the version of the local commit's
/// change that is closest to the upstream tip.
pub open spec fn is_version_of(
    repo: &Repository,
    upstream: Seq<ObjectId>,
    commit: ObjectId,
    local: ObjectId,
) -> bool {
    if upstream.contains(local) {
        commit == local
    } else {
        exists|k: int|
            {
                &&& 0 <= k < upstream.len()
                &&& #[trigger] upstream[k] == commit
                &&& same_change(repo, local, upstream[k])
                &&& forall|j: int| 0 <= j < k ==> !same_change(repo, local, #[trigger] upstream[j])
            }
    }
}

/// Whether an upstream commit is on the branch already, as it is or in the version of a local
/// commit that it is matched with.
pub open spec fn is_local(
    repo: &Repository,
    local: Seq<ObjectId>,
    upstream: Seq<ObjectId>,
    commit: ObjectId,
) -> bool {
    exists|i: int|
        0 <= i < local.len() && is_version_of(repo, upstream, commit, #[trigger] local[i])
}

/// Whether it is known which changes the upstream commits are versions of, and which ones the
/// local commits that are not upstream themselves.
pub open spec fn changes_are_known(
    repo: &Repository,
    local: Seq<ObjectId>,
    upstream: Seq<ObjectId>,
) -> bool {
    &&& forall|k: int|
        0 <= k < upstream.len() ==> repo.spec_change_id(#[trigger] upstream[k]) is Ok
    &&& forall|k: int|
        0 <= k < local.len() && !upstream.contains(#[trigger] local[k]) ==> repo.spec_change_id(
            local[k],
        ) is Ok
}

/// The integration of a branch starts out with a step for each local commit that is not upstream,
/// then for each upstream commit that is not local, then for each local commit that is upstream
/// too. Each group is in the order of its side, and the merge base is that of the two tips.
pub proof fn law_initial_steps_of_a_branch(repo: &Repository, name: Seq<u8>, parts: Divergence)
    requires
        is_known(repo, name, parts),
        changes_are_known(repo, parts.local, parts.upstream),
    ensures
        initial_integration(repo, name) is Ok,
        initial_integration(repo, name)->Ok_0.1 == parts.merge_base,
        initial_integration(repo, name)->Ok_0.0 == parts.local.filter(
            |commit: ObjectId| !is_upstream(repo, parts.upstream, commit),
        ).map_values(|commit_id: ObjectId| IntegrationStepView::Pick { commit_id })
            + parts.upstream.filter(
            |commit: ObjectId| !is_local(repo, parts.local, parts.upstream, commit),
        ).map_values(|commit_id: ObjectId| IntegrationStepView::PickUpstream { commit_id })
            + parts.local.filter(
            |commit: ObjectId| is_upstream(repo, parts.upstream, commit),
        ).map_values(|commit_id: ObjectId| IntegrationStepView::Pick { commit_id }),
{
    let local = parts.local;
    let upstream = parts.upstream;
    lemma_changes_are_read(repo, upstream);
    let changes = change_ids(repo, upstream)->Ok_0;
    lemma_counterparts_are_found(repo, upstream, local);
    let found = counterparts(repo, upstream, changes, local)->Ok_0;
    lemma_counterparts_of_each(repo, upstream, changes, local);
    assert forall|i: int| 0 <= i < local.len() implies ((#[trigger] found[i]) is Some
        <==> is_upstream(repo, upstream, local[i])) by {
        assert(counterpart(repo, upstream, changes, local[i]) == Ok::<_, StopView>(found[i]));
        lemma_counterpart_is_a_version(repo, upstream, local[i]);
    }
    lemma_locals_are_filtered(repo, upstream, local, found, true);
    lemma_locals_are_filtered(repo, upstream, local, found, false);
    assert forall|k: int| 0 <= k < upstream.len() implies (!found.contains(
        Some(#[trigger] upstream[k]),
    ) <==> !is_local(repo, local, upstream, upstream[k])) by {
        let commit = upstream[k];
        if found.contains(Some(commit)) {
            let i = choose|i: int| 0 <= i < found.len() && found[i] == Some(commit);
            assert(counterpart(repo, upstream, changes, local[i]) == Ok::<_, StopView>(found[i]));
            lemma_counterpart_is_a_version(repo, upstream, local[i]);
            assert(is_version_of(repo, upstream, commit, local[i]));
        }
        if is_local(repo, local, upstream, commit) {
            let i = choose|i: int|
                0 <= i < local.len() && is_version_of(repo, upstream, commit, #[trigger] local[i]);
            assert(counterpart(repo, upstream, changes, local[i]) == Ok::<_, StopView>(found[i]));
            lemma_counterpart_is_a_version(repo, upstream, local[i]);
            assert(found[i] == Some(commit));
        }
    }
    let one = |commit: ObjectId| !found.contains(Some(commit));
    let two = |commit: ObjectId| !is_local(repo, local, upstream, commit);
    lemma_same_filter(upstream, one, two);
    assert(remote_only(upstream, found) == upstream.filter(one));
    let without = |commit: ObjectId| !is_upstream(repo, upstream, commit);
    let with = |commit: ObjectId| is_upstream(repo, upstream, commit);
    lemma_same_filter(
        local,
        |commit: ObjectId| is_upstream(repo, upstream, commit) == false,
        without,
    );
    lemma_same_filter(local, |commit: ObjectId| is_upstream(repo, upstream, commit) == true, with);
    assert(picks(locals(local, found, false)) =~= local.filter(without).map_values(
        |commit_id: ObjectId| IntegrationStepView::Pick { commit_id },
    ));
    assert(picks(locals(local, found, true)) =~= local.filter(with).map_values(
        |commit_id: ObjectId| IntegrationStepView::Pick { commit_id },
    ));
    assert(upstream_picks(remote_only(upstream, found)) =~= upstream.filter(two).map_values(
        |commit_id: ObjectId| IntegrationStepView::PickUpstream { commit_id },
    ));
}

proof fn lemma_changes_are_read(repo: &Repository, commits: Seq<ObjectId>)
    requires
        forall|k: int| 0 <= k < commits.len() ==> repo.spec_change_id(#[trigger] commits[k]) is Ok,
    ensures
        change_ids(repo, commits) is Ok,
    decreases commits.len(),
{
    if commits.len() > 0 {
        assert forall|k: int| 0 <= k < commits.drop_last().len() implies repo.spec_change_id(
            #[trigger] commits.drop_last()[k],
        ) is Ok by {
            assert(commits.drop_last()[k] == commits[k]);
        }
        lemma_changes_are_read(repo, commits.drop_last());
        assert(commits.last() == commits[commits.len() - 1]);
    }
}

proof fn lemma_counterparts_are_found(
    repo: &Repository,
    upstream: Seq<ObjectId>,
    local: Seq<ObjectId>,
)
    requires
        changes_are_known(repo, local, upstream),
        change_ids(repo, upstream) is Ok,
    ensures
        counterparts(repo, upstream, change_ids(repo, upstream)->Ok_0, local) is Ok,
    decreases local.len(),
{
    if local.len() > 0 {
        let before = local.drop_last();
        assert forall|k: int|
            0 <= k < before.len() && !upstream.contains(
                #[trigger] before[k],
            ) implies repo.spec_change_id(before[k]) is Ok by {
            assert(before[k] == local[k]);
        }
        lemma_counterparts_are_found(repo, upstream, before);
        assert(local.last() == local[local.len() - 1]);
    }
}

/// The counterpart of a local commit is the upstream commit that it is matched with.
proof fn lemma_counterpart_is_a_version(
    repo: &Repository,
    upstream: Seq<ObjectId>,
    local: ObjectId,
)
    requires
        change_ids(repo, upstream) is Ok,
        counterpart(repo, upstream, change_ids(repo, upstream)->Ok_0, local) is Ok,
    ensures
        ({
            let found = counterpart(repo, upstream, change_ids(repo, upstream)->Ok_0, local)->Ok_0;
            &&& found is Some <==> is_upstream(repo, upstream, local)
            &&& forall|commit: ObjectId|
                found == Some(commit) <==> #[trigger] is_version_of(repo, upstream, commit, local)
        }),
{
    let changes = change_ids(repo, upstream)->Ok_0;
    lemma_change_of_each(repo, upstream);
    if !upstream.contains(local) {
        let found = counterpart(repo, upstream, changes, local)->Ok_0;
        let change = repo.spec_change_id(local)->Ok_0;
        assert forall|k: int| 0 <= k < upstream.len() implies (same_change(
            repo,
            local,
            #[trigger] upstream[k],
        ) <==> changes[k] == change) by {
            assert(repo.spec_change_id(upstream[k]) == Ok::<_, StopView>(changes[k]));
        }
        if changes.contains(change) {
            changes.index_of_first_ensures(change);
            let i = changes.index_of_first(change)->Some_0;
            assert(same_change(repo, local, upstream[i]));
            assert forall|j: int| 0 <= j < i implies !same_change(
                repo,
                local,
                #[trigger] upstream[j],
            ) by {
                assert(changes[j] != change);
            }
            assert(is_version_of(repo, upstream, upstream[i], local));
            assert forall|commit: ObjectId| #[trigger]
                is_version_of(repo, upstream, commit, local) implies found == Some(commit) by {
                let k = choose|k: int|
                    {
                        &&& 0 <= k < upstream.len()
                        &&& #[trigger] upstream[k] == commit
                        &&& same_change(repo, local, upstream[k])
                        &&& forall|j: int|
                            0 <= j < k ==> !same_change(repo, local, #[trigger] upstream[j])
                    };
                if k < i {
                    assert(changes[k] == change);
                }
                if i < k {
                    assert(!same_change(repo, local, upstream[i]));
                }
                assert(k == i);
            }
        } else {
            assert forall|k: int| 0 <= k < upstream.len() implies !same_change(
                repo,
                local,
                #[trigger] upstream[k],
            ) by {
                assert(changes.contains(changes[k]));
            }
        }
    }
}

proof fn lemma_locals_are_filtered(
    repo: &Repository,
    upstream: Seq<ObjectId>,
    local: Seq<ObjectId>,
    found: Seq<Option<ObjectId>>,
    with_counterpart: bool,
)
    requires
        found.len() == local.len(),
        forall|i: int|
            0 <= i < local.len() ==> ((#[trigger] found[i]) is Some <==> is_upstream(
                repo,
                upstream,
                local[i],
            )),
    ensures
        locals(local, found, with_counterpart) == local.filter(
            |commit: ObjectId| is_upstream(repo, upstream, commit) == with_counterpart,
        ),
    decreases local.len(),
{
    reveal(Seq::filter);
    if local.len() > 0 {
        assert forall|i: int| 0 <= i < local.drop_last().len() implies ((
        #[trigger] found.drop_last()[i]) is Some <==> is_upstream(
            repo,
            upstream,
            local.drop_last()[i],
        )) by {
            assert(found[i] == found.drop_last()[i]);
        }
        lemma_locals_are_filtered(
            repo,
            upstream,
            local.drop_last(),
            found.drop_last(),
            with_counterpart,
        );
        assert(found.last() == found[found.len() - 1]);
    }
}

/// What two conditions agree on, they keep alike.
proof fn lemma_same_filter(
    commits: Seq<ObjectId>,
    one: spec_fn(ObjectId) -> bool,
    two: spec_fn(ObjectId) -> bool,
)
    requires
        forall|k: int| 0 <= k < commits.len() ==> one(#[trigger] commits[k]) == two(commits[k]),
    ensures
        commits.filter(one) == commits.filter(two),
    decreases commits.len(),
{
    reveal(Seq::filter);
    if commits.len() > 0 {
        assert forall|k: int| 0 <= k < commits.drop_last().len() implies one(
            #[trigger] commits.drop_last()[k],
        ) == two(commits.drop_last()[k]) by {
            assert(commits.drop_last()[k] == commits[k]);
        }
        lemma_same_filter(commits.drop_last(), one, two);
        assert(commits.last() == commits[commits.len() - 1]);
    }
}

/// Initial steps rest on what is known of the branch, and of the changes on both sides.
pub proof fn law_initial_steps_need_both_sides(repo: &Repository, name: Seq<u8>)
    requires
        initial_integration(repo, name) is Ok,
    ensures
        exists|parts: Divergence| #[trigger]
            is_known(repo, name, parts) && changes_are_known(repo, parts.local, parts.upstream),
{
    let local_tip = repo.spec_reference(name)->Ok_0->Some_0;
    let tracking = repo.spec_tracking_branch(name)->Ok_0->Some_0;
    let upstream_tip = repo.spec_reference(tracking)->Ok_0->Some_0;
    let merge_base = repo.spec_merge_base(local_tip, upstream_tip)->Ok_0->Some_0;
    let local = repo.spec_first_parents(local_tip, merge_base)->Ok_0;
    let upstream = repo.spec_first_parents(upstream_tip, merge_base)->Ok_0;
    let parts = Divergence { local_tip, tracking, upstream_tip, merge_base, local, upstream };
    assert(is_known(repo, name, parts));
    let changes = change_ids(repo, upstream)->Ok_0;
    lemma_change_of_each(repo, upstream);
    lemma_counterparts_of_each(repo, upstream, changes, local);
    assert forall|k: int|
        0 <= k < local.len() && !upstream.contains(#[trigger] local[k]) implies repo.spec_change_id(
        local[k],
    ) is Ok by {
        assert(counterpart(repo, upstream, changes, local[k]) is Ok);
    }
}

/// No upstream change is lost, also where the branch has no commits of its own: each commit on the
/// upstream's side of the merge base is brought in, unless it is a local commit or a version of
/// the change of one. A local commit is kept, and no other is.
pub proof fn law_initial_steps_lose_nothing(
    repo: &Repository,
    name: Seq<u8>,
    parts: Divergence,
    commit: ObjectId,
)
    requires
        is_known(repo, name, parts),
        initial_integration(repo, name) is Ok,
    ensures
        ({
            let steps = initial_integration(repo, name)->Ok_0.0;
            &&& steps.contains(IntegrationStepView::Pick { commit_id: commit })
                <==> parts.local.contains(commit)
            &&& steps.contains(IntegrationStepView::PickUpstream { commit_id: commit })
                ==> parts.upstream.contains(commit) && !parts.local.contains(commit)
            &&& parts.upstream.contains(commit) && (forall|i: int|
                0 <= i < parts.local.len() ==> (#[trigger] parts.local[i]) != commit
                    && !same_change(repo, parts.local[i], commit)) ==> steps.contains(
                IntegrationStepView::PickUpstream { commit_id: commit },
            )
        }),
{
    law_initial_steps_need_both_sides(repo, name);
    law_initial_steps_of_a_branch(repo, name, parts);
    let local = parts.local;
    let upstream = parts.upstream;
    let steps = initial_integration(repo, name)->Ok_0.0;
    let changes = change_ids(repo, upstream)->Ok_0;
    let found = counterparts(repo, upstream, changes, local)->Ok_0;
    lemma_counterparts_of_each(repo, upstream, changes, local);
    crate::integration::initial_laws::law_steps_cover_both_sides(local, upstream, found);
    if upstream.contains(commit) {
        crate::integration::initial_laws::law_no_upstream_change_is_lost(
            repo,
            local,
            upstream,
            commit,
        );
        if local.contains(commit) {
            crate::integration::initial_laws::law_shared_commit_is_kept_once(
                repo,
                local,
                upstream,
                commit,
            );
        }
        if exists|k: int|
            0 <= k < local.len() && ((#[trigger] local[k]) == commit || repo.spec_change_id(
                local[k],
            ) == repo.spec_change_id(commit)) {
            let k = choose|k: int|
                0 <= k < local.len() && ((#[trigger] local[k]) == commit || repo.spec_change_id(
                    local[k],
                ) == repo.spec_change_id(commit));
            lemma_change_of_each(repo, upstream);
            let m = choose|m: int| 0 <= m < upstream.len() && upstream[m] == commit;
            assert(repo.spec_change_id(upstream[m]) is Ok);
            assert(local[k] == commit || same_change(repo, local[k], commit));
        }
    }
}

/// A branch is refused exactly for what it lacks: itself, a branch that it tracks, that branch, or
/// an ancestor that the two have in common. What it lacks is looked for in this order.
pub proof fn law_branch_is_refused_for_what_it_lacks(
    repo: &Repository,
    name: Seq<u8>,
    failure: FailureView,
)
    ensures
        initial_integration(repo, name) == Err::<(Seq<IntegrationStepView>, ObjectId), _>(
            StopView::Failed(failure),
        ) <==> lacks(repo, name, failure),
        commits_until_base(repo, name) == Err::<(Seq<ObjectId>, Seq<ObjectId>, ObjectId), _>(
            StopView::Failed(failure),
        ) <==> lacks(repo, name, failure),
        branch_tips(repo, name) == Err::<(ObjectId, Seq<u8>, ObjectId), _>(
            StopView::Failed(failure),
        ) <==> lacks(repo, name, failure) && !(failure is NoMergeBase),
{
    if let Ok((local, upstream, _)) = commits_until_base(repo, name) {
        lemma_steps_fail_only_for_unknowns(repo, local, upstream);
    }
}

/// Whether a failure is what the integration of a branch is refused for.
pub open spec fn lacks(repo: &Repository, name: Seq<u8>, failure: FailureView) -> bool {
    match repo.spec_reference(name) {
        Err(_) => false,
        Ok(None) => failure == (FailureView::LocalBranchNotFound { name }),
        Ok(Some(local_tip)) => match repo.spec_tracking_branch(name) {
            Err(_) => false,
            Ok(None) => failure == (FailureView::NoTrackingBranch { name }),
            Ok(Some(tracking)) => match repo.spec_reference(tracking) {
                Err(_) => false,
                Ok(None) => failure == (FailureView::TrackingBranchNotFound { name, tracking }),
                Ok(Some(upstream_tip)) => {
                    &&& repo.spec_merge_base(local_tip, upstream_tip) == Ok::<_, StopView>(
                        None::<ObjectId>,
                    )
                    &&& failure == (FailureView::NoMergeBase { name, tracking })
                },
            },
        },
    }
}

proof fn lemma_steps_fail_only_for_unknowns(
    repo: &Repository,
    local: Seq<ObjectId>,
    upstream: Seq<ObjectId>,
)
    ensures
        steps_for_commits(repo, local, upstream) matches Err(stop) ==> stop is Unknown,
{
    lemma_change_ids_fail_only_for_unknowns(repo, upstream);
    if let Ok(changes) = change_ids(repo, upstream) {
        lemma_counterparts_fail_only_for_unknowns(repo, upstream, changes, local);
    }
}

proof fn lemma_change_ids_fail_only_for_unknowns(repo: &Repository, commits: Seq<ObjectId>)
    ensures
        change_ids(repo, commits) matches Err(stop) ==> stop is Unknown,
    decreases commits.len(),
{
    if commits.len() > 0 {
        lemma_change_ids_fail_only_for_unknowns(repo, commits.drop_last());
    }
}

proof fn lemma_counterparts_fail_only_for_unknowns(
    repo: &Repository,
    upstream: Seq<ObjectId>,
    changes: Seq<Seq<char>>,
    local: Seq<ObjectId>,
)
    ensures
        counterparts(repo, upstream, changes, local) matches Err(stop) ==> stop is Unknown,
    decreases local.len(),
{
    if local.len() > 0 {
        lemma_counterparts_fail_only_for_unknowns(repo, upstream, changes, local.drop_last());
    }
}

/// The tips and commits of a branch are those that are known of it.
pub proof fn law_branch_is_read_as_it_is_known(repo: &Repository, name: Seq<u8>, parts: Divergence)
    ensures
        is_known(repo, name, parts) ==> {
            &&& branch_tips(repo, name) == Ok::<_, StopView>(
                (parts.local_tip, parts.tracking, parts.upstream_tip),
            )
            &&& commits_until_base(repo, name) == Ok::<_, StopView>(
                (parts.local, parts.upstream, parts.merge_base),
            )
        },
        branch_tips(repo, name) matches Ok(tips) ==> {
            &&& repo.spec_reference(name) == Ok::<_, StopView>(Some(tips.0))
            &&& repo.spec_tracking_branch(name) == Ok::<_, StopView>(Some(tips.1))
            &&& repo.spec_reference(tips.1) == Ok::<_, StopView>(Some(tips.2))
        },
        commits_until_base(repo, name) is Ok ==> branch_tips(repo, name) is Ok && exists|
            known: Divergence,
        | #[trigger]
            is_known(repo, name, known),
{
    if commits_until_base(repo, name) is Ok {
        let local_tip = repo.spec_reference(name)->Ok_0->Some_0;
        let tracking = repo.spec_tracking_branch(name)->Ok_0->Some_0;
        let upstream_tip = repo.spec_reference(tracking)->Ok_0->Some_0;
        let merge_base = repo.spec_merge_base(local_tip, upstream_tip)->Ok_0->Some_0;
        let local = repo.spec_first_parents(local_tip, merge_base)->Ok_0;
        let upstream = repo.spec_first_parents(upstream_tip, merge_base)->Ok_0;
        let known = Divergence { local_tip, tracking, upstream_tip, merge_base, local, upstream };
        assert(is_known(repo, name, known));
    }
}

} // verus!

//! What holds of the steps that an integration starts out with.
use crate::integration::initial::{
    change_ids, counterpart, counterparts, locals, partitioned_steps, picks, remote_only,
    steps_for_commits, upstream_picks,
};
use crate::integration::steps::IntegrationStepView;
use crate::object_id::ObjectId;
use crate::repository::Repository;
use crate::stop::StopView;
use vstd::prelude::*;

verus! {

/// There is a counterpart entry for every local commit, and it is what [`counterpart`] says.
pub(crate) proof fn lemma_counterparts_of_each(
    repo: &Repository,
    upstream: Seq<ObjectId>,
    changes: Seq<Seq<char>>,
    local: Seq<ObjectId>,
)
    requires
        counterparts(repo, upstream, changes, local) is Ok,
    ensures
        counterparts(repo, upstream, changes, local)->Ok_0.len() == local.len(),
        forall|i: int|
            0 <= i < local.len() ==> counterpart(repo, upstream, changes, #[trigger] local[i])
                == Ok::<_, StopView>(counterparts(repo, upstream, changes, local)->Ok_0[i]),
    decreases local.len(),
{
    if local.len() > 0 {
        lemma_counterparts_of_each(repo, upstream, changes, local.drop_last());
        let shorter = counterparts(repo, upstream, changes, local.drop_last())->Ok_0;
        let found = counterparts(repo, upstream, changes, local)->Ok_0;
        assert forall|i: int| 0 <= i < local.len() implies counterpart(
            repo,
            upstream,
            changes,
            #[trigger] local[i],
        ) == Ok::<_, StopView>(found[i]) by {
            if i < local.len() - 1 {
                assert(local.drop_last()[i] == local[i]);
                assert(found[i] == shorter[i]);
            }
        }
    }
}

/// There is a change for every commit, and it is the commit's.
pub(crate) proof fn lemma_change_of_each(repo: &Repository, commits: Seq<ObjectId>)
    requires
        change_ids(repo, commits) is Ok,
    ensures
        change_ids(repo, commits)->Ok_0.len() == commits.len(),
        forall|i: int|
            0 <= i < commits.len() ==> repo.spec_change_id(#[trigger] commits[i]) == Ok::<
                _,
                StopView,
            >(change_ids(repo, commits)->Ok_0[i]),
    decreases commits.len(),
{
    if commits.len() > 0 {
        lemma_change_of_each(repo, commits.drop_last());
        let shorter = change_ids(repo, commits.drop_last())->Ok_0;
        let ids = change_ids(repo, commits)->Ok_0;
        assert forall|i: int| 0 <= i < commits.len() implies repo.spec_change_id(
            #[trigger] commits[i],
        ) == Ok::<_, StopView>(ids[i]) by {
            if i < commits.len() - 1 {
                assert(commits.drop_last()[i] == commits[i]);
                assert(ids[i] == shorter[i]);
            }
        }
    }
}

/// The upstream commits that are only upstream are those that are no counterpart.
proof fn lemma_remote_only(upstream: Seq<ObjectId>, found: Seq<Option<ObjectId>>)
    ensures
        forall|commit: ObjectId| #[trigger]
            remote_only(upstream, found).contains(commit) <==> upstream.contains(commit)
                && !found.contains(Some(commit)),
    decreases upstream.len(),
{
    reveal(Seq::filter);
    let remote = remote_only(upstream, found);
    if upstream.len() > 0 {
        let last = upstream.last();
        let rest = remote_only(upstream.drop_last(), found);
        lemma_remote_only(upstream.drop_last(), found);
        assert forall|commit: ObjectId| #[trigger]
            remote.contains(commit) <==> upstream.contains(commit) && !found.contains(
                Some(commit),
            ) by {
            if remote.contains(commit) {
                let i = choose|i: int| 0 <= i < remote.len() && remote[i] == commit;
                if i < rest.len() {
                    assert(rest[i] == commit);
                    assert(rest.contains(commit));
                    let k = choose|k: int|
                        0 <= k < upstream.len() - 1 && upstream.drop_last()[k] == commit;
                    assert(upstream[k] == commit);
                } else {
                    assert(commit == last);
                }
            }
            if upstream.contains(commit) && !found.contains(Some(commit)) {
                let k = choose|k: int| 0 <= k < upstream.len() && upstream[k] == commit;
                if k < upstream.len() - 1 {
                    assert(upstream.drop_last()[k] == commit);
                    assert(rest.contains(commit));
                    let i = choose|i: int| 0 <= i < rest.len() && rest[i] == commit;
                    assert(remote[i] == commit);
                } else {
                    assert(remote.last() == last);
                }
            }
        }
    }
}

/// The local commits with and those without a counterpart are together the local commits.
pub proof fn law_local_commits_are_divided_without_loss(
    local: Seq<ObjectId>,
    found: Seq<Option<ObjectId>>,
)
    requires
        found.len() == local.len(),
    ensures
        locals(local, found, false).to_multiset().add(locals(local, found, true).to_multiset())
            == local.to_multiset(),
        locals(local, found, false).len() + locals(local, found, true).len() == local.len(),
    decreases local.len(),
{
    broadcast use vstd::seq_lib::group_to_multiset_ensures;

    if local.len() > 0 {
        law_local_commits_are_divided_without_loss(local.drop_last(), found.drop_last());
        let rest_without = locals(local.drop_last(), found.drop_last(), false);
        let rest_with = locals(local.drop_last(), found.drop_last(), true);
        let last = local.last();
        assert(local =~= local.drop_last().push(last));
        if found.last() is Some {
            assert(rest_without.to_multiset().add(rest_with.push(last).to_multiset())
                =~= rest_without.to_multiset().add(rest_with.to_multiset()).insert(last));
        } else {
            assert(rest_without.push(last).to_multiset().add(rest_with.to_multiset())
                =~= rest_without.to_multiset().add(rest_with.to_multiset()).insert(last));
        }
    } else {
        assert(locals(local, found, false).to_multiset().add(
            locals(local, found, true).to_multiset(),
        ) =~= local.to_multiset());
    }
}

/// Whether a list is another one with some items left out.
pub open spec fn in_order_within(
    part: Seq<ObjectId>,
    whole: Seq<ObjectId>,
    places: Seq<int>,
) -> bool {
    &&& places.len() == part.len()
    &&& forall|i: int|
        0 <= i < part.len() ==> 0 <= #[trigger] places[i] < whole.len() && whole[places[i]]
            == part[i]
    &&& forall|i: int, j: int| 0 <= i < j < part.len() ==> places[i] < places[j]
}

/// Where the local commits of a group stand among all local commits.
pub open spec fn places_of(found: Seq<Option<ObjectId>>, with_counterpart: bool) -> Seq<int>
    decreases found.len(),
{
    if found.len() == 0 {
        Seq::empty()
    } else {
        let rest = places_of(found.drop_last(), with_counterpart);
        if (found.last() is Some) == with_counterpart {
            rest.push(found.len() - 1)
        } else {
            rest
        }
    }
}

/// Each group of local commits keeps the order that the commits have on the branch, and holds
/// the commits that have a counterpart, or those that have none.
pub proof fn law_local_commits_keep_their_order(
    local: Seq<ObjectId>,
    found: Seq<Option<ObjectId>>,
    with_counterpart: bool,
)
    requires
        found.len() == local.len(),
    ensures
        in_order_within(
            locals(local, found, with_counterpart),
            local,
            places_of(found, with_counterpart),
        ),
        forall|k: int|
            0 <= k < local.len() ==> (places_of(found, with_counterpart).contains(k) <==> ((
            #[trigger] found[k]) is Some) == with_counterpart),
    decreases local.len(),
{
    if local.len() > 0 {
        law_local_commits_keep_their_order(local.drop_last(), found.drop_last(), with_counterpart);
        let n = local.len() - 1;
        let rest = places_of(found.drop_last(), with_counterpart);
        let places = places_of(found, with_counterpart);
        let rest_part = locals(local.drop_last(), found.drop_last(), with_counterpart);
        assert forall|i: int| 0 <= i < rest_part.len() implies 0 <= #[trigger] rest[i] < n
            && local[rest[i]] == rest_part[i] by {
            assert(local.drop_last()[rest[i]] == local[rest[i]]);
        }
        assert forall|k: int| 0 <= k < local.len() implies (places.contains(k) <==> (
        (#[trigger] found[k]) is Some) == with_counterpart) by {
            if k < n {
                assert(found.drop_last()[k] == found[k]);
                if rest.contains(k) {
                    let i = choose|i: int| 0 <= i < rest.len() && rest[i] == k;
                    assert(places[i] == k);
                }
                if places.contains(k) {
                    let i = choose|i: int| 0 <= i < places.len() && places[i] == k;
                    assert(i < rest.len() && rest[i] == k);
                }
            } else {
                if (found[k] is Some) == with_counterpart {
                    assert(places.last() == n);
                } else {
                    assert(!rest.contains(n)) by {
                        if rest.contains(n) {
                            let i = choose|i: int| 0 <= i < rest.len() && rest[i] == n;
                            assert(0 <= rest[i] < n);
                        }
                    }
                }
            }
        }
    }
}

/// A step that keeps a commit is there exactly for the local commits, one that brings a commit
/// in exactly for the upstream commits that are no counterpart, and there are no other steps.
pub proof fn law_steps_cover_both_sides(
    local: Seq<ObjectId>,
    upstream: Seq<ObjectId>,
    found: Seq<Option<ObjectId>>,
)
    requires
        found.len() == local.len(),
    ensures
        forall|commit_id: ObjectId| #[trigger]
            partitioned_steps(local, upstream, found).contains(
                IntegrationStepView::Pick { commit_id },
            ) <==> local.contains(commit_id),
        forall|commit_id: ObjectId| #[trigger]
            partitioned_steps(local, upstream, found).contains(
                IntegrationStepView::PickUpstream { commit_id },
            ) <==> upstream.contains(commit_id) && !found.contains(Some(commit_id)),
        forall|i: int| 0 <= i < partitioned_steps(local, upstream, found).len() ==> (
        #[trigger] partitioned_steps(local, upstream, found)[i]) is Pick || partitioned_steps(
            local,
            upstream,
            found,
        )[i] is PickUpstream,
        partitioned_steps(local, upstream, found).len() == local.len() + remote_only(
            upstream,
            found,
        ).len(),
{
    let steps = partitioned_steps(local, upstream, found);
    let without = locals(local, found, false);
    let with = locals(local, found, true);
    let remote = remote_only(upstream, found);
    lemma_remote_only(upstream, found);
    law_local_commits_are_divided_without_loss(local, found);
    law_local_commits_keep_their_order(local, found, false);
    law_local_commits_keep_their_order(local, found, true);
    assert forall|commit_id: ObjectId| #[trigger]
        steps.contains(IntegrationStepView::Pick { commit_id }) <==> local.contains(
            commit_id,
        ) by {
        let step = IntegrationStepView::Pick { commit_id };
        if steps.contains(step) {
            let i = choose|i: int| 0 <= i < steps.len() && steps[i] == step;
            let a = without.len() as int;
            let b = remote.len() as int;
            if i < a {
                assert(picks(without)[i] == step);
                let place = places_of(found, false)[i];
                assert(local[place] == commit_id);
            } else if i < a + b {
                assert(upstream_picks(remote)[i - a] == step);
                assert(false);
            } else {
                assert(picks(with)[i - a - b] == step);
                let place = places_of(found, true)[i - a - b];
                assert(local[place] == commit_id);
            }
        }
        if local.contains(commit_id) {
            let k = choose|k: int| 0 <= k < local.len() && local[k] == commit_id;
            let a = without.len() as int;
            let b = remote.len() as int;
            if found[k] is Some {
                assert(places_of(found, true).contains(k));
                let i = choose|i: int|
                    0 <= i < places_of(found, true).len() && places_of(found, true)[i] == k;
                assert(with[i] == commit_id);
                assert(picks(with)[i] == step);
                assert(steps[a + b + i] == step);
            } else {
                assert(places_of(found, false).contains(k));
                let i = choose|i: int|
                    0 <= i < places_of(found, false).len() && places_of(found, false)[i] == k;
                assert(without[i] == commit_id);
                assert(picks(without)[i] == step);
                assert(steps[i] == step);
            }
        }
    }
    assert forall|commit_id: ObjectId| #[trigger]
        steps.contains(IntegrationStepView::PickUpstream { commit_id }) <==> upstream.contains(
            commit_id,
        ) && !found.contains(Some(commit_id)) by {
        let step = IntegrationStepView::PickUpstream { commit_id };
        let a = without.len() as int;
        let b = remote.len() as int;
        if steps.contains(step) {
            let i = choose|i: int| 0 <= i < steps.len() && steps[i] == step;
            if i < a {
                assert(picks(without)[i] == step);
                assert(false);
            } else if i < a + b {
                assert(upstream_picks(remote)[i - a] == step);
                assert(remote[i - a] == commit_id);
                assert(remote.contains(commit_id));
            } else {
                assert(picks(with)[i - a - b] == step);
                assert(false);
            }
        }
        if upstream.contains(commit_id) && !found.contains(Some(commit_id)) {
            assert(remote.contains(commit_id));
            let i = choose|i: int| 0 <= i < remote.len() && remote[i] == commit_id;
            assert(upstream_picks(remote)[i] == step);
            assert(steps[a + i] == step);
        }
    }
    assert forall|i: int| 0 <= i < steps.len() implies (#[trigger] steps[i]) is Pick
        || steps[i] is PickUpstream by {
        let a = without.len() as int;
        let b = remote.len() as int;
        if i < a {
            assert(steps[i] == picks(without)[i]);
        } else if i < a + b {
            assert(steps[i] == upstream_picks(remote)[i - a]);
        } else {
            assert(steps[i] == picks(with)[i - a - b]);
        }
    }
}

/// A commit that is on both sides is kept as a local commit and not brought in once more.
pub proof fn law_shared_commit_is_kept_once(
    repo: &Repository,
    local: Seq<ObjectId>,
    upstream: Seq<ObjectId>,
    commit: ObjectId,
)
    requires
        steps_for_commits(repo, local, upstream) is Ok,
        local.contains(commit),
        upstream.contains(commit),
    ensures
        steps_for_commits(repo, local, upstream)->Ok_0.contains(
            IntegrationStepView::Pick { commit_id: commit },
        ),
        !steps_for_commits(repo, local, upstream)->Ok_0.contains(
            IntegrationStepView::PickUpstream { commit_id: commit },
        ),
{
    let changes = change_ids(repo, upstream)->Ok_0;
    let found = counterparts(repo, upstream, changes, local)->Ok_0;
    lemma_counterparts_of_each(repo, upstream, changes, local);
    law_steps_cover_both_sides(local, upstream, found);
    let k = choose|k: int| 0 <= k < local.len() && local[k] == commit;
    assert(counterpart(repo, upstream, changes, local[k]) == Ok::<_, StopView>(
        found[k],
    ));
    assert(found[k] == Some(commit));
}

/// Every upstream commit is brought in, or a local commit is that commit or a version of the
/// same change.
pub proof fn law_no_upstream_change_is_lost(
    repo: &Repository,
    local: Seq<ObjectId>,
    upstream: Seq<ObjectId>,
    commit: ObjectId,
)
    requires
        steps_for_commits(repo, local, upstream) is Ok,
        upstream.contains(commit),
    ensures
        steps_for_commits(repo, local, upstream)->Ok_0.contains(
            IntegrationStepView::PickUpstream { commit_id: commit },
        ) || exists|k: int|
            0 <= k < local.len() && ((#[trigger] local[k]) == commit || repo.spec_change_id(
                local[k],
            ) == repo.spec_change_id(commit)),
{
    let changes = change_ids(repo, upstream)->Ok_0;
    let found = counterparts(repo, upstream, changes, local)->Ok_0;
    lemma_counterparts_of_each(repo, upstream, changes, local);
    lemma_change_of_each(repo, upstream);
    law_steps_cover_both_sides(local, upstream, found);
    if found.contains(Some(commit)) {
        let k = choose|k: int| 0 <= k < found.len() && found[k] == Some(commit);
        assert(counterpart(repo, upstream, changes, local[k]) == Ok::<_, StopView>(
            found[k],
        ));
        if local[k] != commit {
            let change = repo.spec_change_id(local[k])->Ok_0;
            changes.index_of_first_ensures(change);
            let i = changes.index_of_first(change)->Some_0;
            assert(upstream[i] == commit);
            assert(repo.spec_change_id(upstream[i]) == Ok::<_, StopView>(changes[i]));
        }
    }
}

/// A local commit that is not upstream itself is matched with the upstream commit closest to the
/// tip that is a version of the same change, and with none only if there is no such commit.
pub proof fn law_closest_upstream_version_is_matched(
    repo: &Repository,
    upstream: Seq<ObjectId>,
    commit: ObjectId,
    k: int,
)
    requires
        change_ids(repo, upstream) is Ok,
        repo.spec_change_id(commit) is Ok,
        !upstream.contains(commit),
        0 <= k < upstream.len(),
        repo.spec_change_id(upstream[k]) == repo.spec_change_id(commit),
        forall|j: int| 0 <= j < k ==> repo.spec_change_id(#[trigger] upstream[j])
            != repo.spec_change_id(commit),
    ensures
        counterpart(repo, upstream, change_ids(repo, upstream)->Ok_0, commit) == Ok::<
            _,
            StopView,
        >(Some(upstream[k])),
{
    let changes = change_ids(repo, upstream)->Ok_0;
    let change = repo.spec_change_id(commit)->Ok_0;
    lemma_change_of_each(repo, upstream);
    assert(repo.spec_change_id(upstream[k]) == Ok::<_, StopView>(changes[k]));
    assert(changes[k] == change);
    changes.index_of_first_ensures(change);
    let i = changes.index_of_first(change)->Some_0;
    if i < k {
        assert(repo.spec_change_id(upstream[i]) == Ok::<_, StopView>(changes[i]));
        assert(false);
    }
    assert(i == k);
}

/// If every upstream commit is also local, nothing is brought in and every local commit is kept.
pub proof fn law_nothing_is_brought_in_from_an_integrated_upstream(
    repo: &Repository,
    local: Seq<ObjectId>,
    upstream: Seq<ObjectId>,
)
    requires
        steps_for_commits(repo, local, upstream) is Ok,
        forall|k: int| 0 <= k < upstream.len() ==> local.contains(#[trigger] upstream[k]),
    ensures
        forall|i: int| 0 <= i < steps_for_commits(repo, local, upstream)->Ok_0.len() ==> (
        #[trigger] steps_for_commits(repo, local, upstream)->Ok_0[i]) is Pick,
        steps_for_commits(repo, local, upstream)->Ok_0.len() == local.len(),
{
    let changes = change_ids(repo, upstream)->Ok_0;
    let found = counterparts(repo, upstream, changes, local)->Ok_0;
    let steps = steps_for_commits(repo, local, upstream)->Ok_0;
    lemma_counterparts_of_each(repo, upstream, changes, local);
    law_steps_cover_both_sides(local, upstream, found);
    let remote = remote_only(upstream, found);
    lemma_remote_only(upstream, found);
    assert(remote.len() == 0) by {
        if remote.len() > 0 {
            assert(remote.contains(remote[0]));
            let k = choose|k: int| 0 <= k < upstream.len() && upstream[k] == remote[0];
            assert(local.contains(upstream[k]));
            law_shared_commit_is_kept_once(repo, local, upstream, upstream[k]);
            assert(!steps.contains(IntegrationStepView::PickUpstream { commit_id: remote[0] }));
        }
    }
    assert forall|i: int| 0 <= i < steps.len() implies (#[trigger] steps[i]) is Pick by {
        if let IntegrationStepView::PickUpstream { commit_id } = steps[i] {
            assert(steps.contains(IntegrationStepView::PickUpstream { commit_id }));
            assert(remote.contains(commit_id));
        }
    }
}

} // verus!

//! What holds of the commands that an integration gives to the graph editor.
use crate::integration::edges::{fresh_order, join, max_order, run_join_all, EdgeSelection};
use crate::integration::editor::{done_reply, reply, Edge, Reply, Run, Selector, Step};
use crate::integration::segment::{run_step, run_steps};
use crate::integration::steps::IntegrationStepView;
use crate::object_id::ObjectId;
use crate::repository::Repository;
use crate::stop::StopView;
use vstd::prelude::*;

verus! {

/// A new edge comes after all edges that are present.
pub proof fn law_new_edge_comes_last(present: Seq<Edge>, order: usize)
    ensures
        forall|k: int| 0 <= k < present.len() ==> (#[trigger] present[k]).order < fresh_order(
            max_order(present),
            order,
        ),
    decreases present.len(),
{
    if present.len() > 0 {
        law_new_edge_comes_last(present.drop_last(), order);
        assert forall|k: int| 0 <= k < present.len() implies (#[trigger] present[k]).order
            < fresh_order(max_order(present), order) by {
            if k < present.len() - 1 {
                assert(present.drop_last()[k] == present[k]);
            }
        }
    }
}

/// Edges that are added together keep their order.
pub proof fn law_new_edges_keep_their_order(max: nat, one: usize, two: usize)
    ensures
        one < two <==> fresh_order(max, one) < fresh_order(max, two),
        one == two <==> fresh_order(max, one) == fresh_order(max, two),
{
}

/// A node is joined to each neighbour by one command, in the order in which the neighbours are
/// named, and each new edge gets its place after the edges that were there.
pub proof fn law_neighbours_are_joined_in_turn(
    replies: Seq<Reply>,
    at: nat,
    node: Selector,
    side: EdgeSelection,
    edges: Seq<Edge>,
    max: nat,
    k: int,
)
    requires
        run_join_all(replies, at, node, side, edges, max) is Done,
        0 <= k < edges.len(),
        at <= replies.len(),
    ensures
        run_join_all(replies, at, node, side, edges, max) == (Run::Done {
            value: (),
            next: at + edges.len(),
        }),
        at + edges.len() <= replies.len(),
        fresh_order(max, edges[k].order) <= usize::MAX,
        run_join_all(replies.take(at + k), at, node, side, edges, max) == Run::<()>::Stopped(
            StopView::Pending(
                join(node, side, edges[k].node, fresh_order(max, edges[k].order) as usize),
            ),
        ),
    decreases edges.len(),
{
    let rest = edges.drop_first();
    let order = fresh_order(max, edges.first().order) as usize;
    assert(done_reply(replies, at, join(node, side, edges.first().node, order)) == (Run::Done {
        value: (),
        next: at + 1,
    }));
    if rest.len() > 0 {
        let j = if k == 0 {
            0
        } else {
            k - 1
        };
        law_neighbours_are_joined_in_turn(replies, at + 1, node, side, rest, max, j);
    }
    if k > 0 {
        assert(rest[k - 1] == edges[k]);
        assert(replies.take(at + k) == replies.take((at + 1) + (k - 1)));
        assert(reply(replies.take(at + k), at) == reply(replies, at));
    }
}

/// The steps that put something into the segment, from the last of them to the first.
pub open spec fn kept_from_child_to_parent(steps: Seq<IntegrationStepView>) -> Seq<
    IntegrationStepView,
>
    decreases steps.len(),
{
    if steps.len() == 0 {
        Seq::empty()
    } else if steps.last() is Skip {
        kept_from_child_to_parent(steps.drop_last())
    } else {
        seq![steps.last()] + kept_from_child_to_parent(steps.drop_last())
    }
}

/// Whether a run comes to a step for the segment.
pub open spec fn gives(run: Run<Option<Step>>, segment_step: Step) -> bool {
    run matches Run::Done { value, next: _ } && value == Some(segment_step)
}

/// Whether a step of an integration puts a step into the segment.
pub open spec fn puts(
    repo: &Repository,
    replies: Seq<Reply>,
    step: IntegrationStepView,
    segment_step: Step,
) -> bool {
    exists|at: nat| gives(#[trigger] run_step(repo, replies, at, step), segment_step)
}

/// The segment lists, from child to parent and after what was there, what each step puts into
/// it that does not skip a commit, and nothing else.
pub proof fn law_segment_lists_kept_steps(
    repo: &Repository,
    replies: Seq<Reply>,
    at: nat,
    steps: Seq<IntegrationStepView>,
    segment: Seq<Step>,
)
    ensures
        run_steps(repo, replies, at, steps, segment) matches Run::Done { value, next: _ } ==> {
            let kept = kept_from_child_to_parent(steps);
            &&& value.len() == segment.len() + kept.len()
            &&& value.take(segment.len() as int) == segment
            &&& forall|i: int|
                0 <= i < kept.len() ==> puts(
                    repo,
                    replies,
                    #[trigger] kept[i],
                    value[segment.len() + i],
                )
        },
    decreases steps.len(),
{
    let kept = kept_from_child_to_parent(steps);
    if steps.len() == 0 {
        assert(segment.take(segment.len() as int) =~= segment);
    } else {
        let rest = kept_from_child_to_parent(steps.drop_last());
        match run_step(repo, replies, at, steps.last()) {
            Run::Stopped(_) => {},
            Run::Done { value: None, next } => {
                assert(steps.last() is Skip);
                law_segment_lists_kept_steps(repo, replies, next, steps.drop_last(), segment);
            },
            Run::Done { value: Some(step), next } => {
                assert(!(steps.last() is Skip));
                let longer = segment.push(step);
                law_segment_lists_kept_steps(repo, replies, next, steps.drop_last(), longer);
                if let Run::Done { value, next: _ } = run_steps(
                    repo,
                    replies,
                    next,
                    steps.drop_last(),
                    longer,
                ) {
                    assert(value.take(longer.len() as int)[segment.len() as int] == step);
                    assert(value.take(segment.len() as int) =~= segment) by {
                        assert(value.take(segment.len() as int) =~= value.take(
                            longer.len() as int,
                        ).take(segment.len() as int));
                        assert(longer.take(segment.len() as int) =~= segment);
                    }
                    assert(gives(run_step(repo, replies, at, steps.last()), step));
                    assert forall|i: int| 0 <= i < kept.len() implies puts(
                        repo,
                        replies,
                        #[trigger] kept[i],
                        value[segment.len() + i],
                    ) by {
                        if i == 0 {
                            assert(kept[0] == steps.last());
                            assert(puts(repo, replies, kept[0], step));
                        } else {
                            assert(kept[i] == rest[i - 1]);
                            assert(value[segment.len() + i] == value[longer.len() + (i - 1)]);
                        }
                    }
                }
            },
        }
    }
}

/// A step that skips a commit puts nothing into the segment.
pub proof fn law_skipped_commit_is_not_in_the_segment(
    repo: &Repository,
    replies: Seq<Reply>,
    commit_id: ObjectId,
    segment_step: Step,
)
    ensures
        !puts(repo, replies, IntegrationStepView::Skip { commit_id }, segment_step),
{
}

} // verus!

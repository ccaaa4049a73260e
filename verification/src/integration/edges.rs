//! The edges that join a segment of the commit graph to its neighbours.
use crate::integration::editor::{
    agrees, agrees_in_view, done_reply, edges_reply, node_reply, CommandView, Edge, Editor, Reply,
    Run, Segment, Selector, SelectorSet, SelectorSetView,
};
use crate::stop::{Failure, FailureView, Stop, StopView};
use vstd::prelude::*;

verus! {

/// On which side of a node its neighbours are.
#[derive(Clone, Copy, Debug, PartialEq, Eq, Structural)]
pub enum EdgeSelection {
    Children,
    Parents,
}

/// The command that lists the edges on one side of a node.
pub open spec fn list_edges(of: Selector, side: EdgeSelection) -> CommandView {
    match side {
        EdgeSelection::Children => CommandView::DirectChildren { of },
        EdgeSelection::Parents => CommandView::DirectParents { of },
    }
}

/// The first of some edges that leads to a node.
pub open spec fn first_edge_to(edges: Seq<Edge>, node: Selector) -> Option<Edge>
    decreases edges.len(),
{
    if edges.len() == 0 {
        None
    } else if edges.first().node == node {
        Some(edges.first())
    } else {
        first_edge_to(edges.drop_first(), node)
    }
}

/// The edges to the wanted nodes, in the order in which these are named, after those that were
/// already selected.
pub open spec fn run_selection(
    replies: Seq<Reply>,
    at: nat,
    available: Seq<Edge>,
    wanted: Seq<Selector>,
    selected: Seq<Edge>,
) -> Run<Seq<Edge>>
    decreases wanted.len(),
{
    if wanted.len() == 0 {
        Run::Done { value: selected, next: at }
    } else {
        match node_reply(
            replies,
            at,
            CommandView::ResolveSelector { selector: wanted.first() },
        ) {
            Run::Stopped(stop) => Run::Stopped(stop),
            Run::Done { value: node, next } => match first_edge_to(available, node) {
                None => Run::Stopped(StopView::Failed(FailureView::EdgeNotFound)),
                Some(edge) => run_selection(
                    replies,
                    next,
                    available,
                    wanted.drop_first(),
                    selected.push(edge),
                ),
            },
        }
    }
}

/// The edges of a node on one side that a set selects.
pub open spec fn run_selected_edges(
    replies: Seq<Reply>,
    at: nat,
    target: Selector,
    selectors: SelectorSetView,
    side: EdgeSelection,
) -> Run<Seq<Edge>> {
    match edges_reply(replies, at, list_edges(target, side)) {
        Run::Stopped(stop) => Run::Stopped(stop),
        Run::Done { value: available, next } => match selectors {
            SelectorSetView::All => Run::Done { value: available, next },
            SelectorSetView::Nothing => Run::Done { value: Seq::empty(), next },
            SelectorSetView::Only(wanted) => run_selection(
                replies,
                next,
                available,
                wanted,
                Seq::empty(),
            ),
        },
    }
}

/// The greatest order among edges, 0 if there are none.
pub open spec fn max_order(edges: Seq<Edge>) -> nat
    decreases edges.len(),
{
    if edges.len() == 0 {
        0
    } else {
        let rest = max_order(edges.drop_last());
        if edges.last().order > rest {
            edges.last().order as nat
        } else {
            rest
        }
    }
}

/// The command that joins a node to a neighbour on one side.
pub open spec fn join(
    node: Selector,
    side: EdgeSelection,
    neighbour: Selector,
    order: usize,
) -> CommandView {
    match side {
        EdgeSelection::Children => CommandView::AddEdge { child: neighbour, parent: node, order },
        EdgeSelection::Parents => CommandView::AddEdge { child: node, parent: neighbour, order },
    }
}

/// The order of an edge that is added where edges up to `max` exist.
pub open spec fn fresh_order(max: nat, order: usize) -> nat {
    max + order as nat + 1
}

/// Joins a node to neighbours on one side, one by one.
pub open spec fn run_join_all(
    replies: Seq<Reply>,
    at: nat,
    node: Selector,
    side: EdgeSelection,
    edges: Seq<Edge>,
    max: nat,
) -> Run<()>
    decreases edges.len(),
{
    if edges.len() == 0 {
        Run::Done { value: (), next: at }
    } else {
        let order = fresh_order(max, edges.first().order);
        if order > usize::MAX {
            Run::Stopped(StopView::Failed(FailureView::EdgeOrderOverflow))
        } else {
            match done_reply(
                replies,
                at,
                join(node, side, edges.first().node, order as usize),
            ) {
                Run::Stopped(stop) => Run::Stopped(stop),
                Run::Done { value: _, next } => run_join_all(
                    replies,
                    next,
                    node,
                    side,
                    edges.drop_first(),
                    max,
                ),
            }
        }
    }
}

/// Joins a node to neighbours on one side, by orders above those of its edges there.
pub open spec fn run_connect_side(
    replies: Seq<Reply>,
    at: nat,
    node: Selector,
    side: EdgeSelection,
    edges: Seq<Edge>,
) -> Run<()> {
    match edges_reply(replies, at, list_edges(node, side)) {
        Run::Stopped(stop) => Run::Stopped(stop),
        Run::Done { value: present, next } => run_join_all(
            replies,
            next,
            node,
            side,
            edges,
            max_order(present),
        ),
    }
}

/// Joins the ends of a segment to children and to parents.
pub open spec fn run_connect(
    replies: Seq<Reply>,
    at: nat,
    segment: Segment,
    children: Seq<Edge>,
    parents: Seq<Edge>,
) -> Run<()> {
    match run_connect_side(replies, at, segment.child, EdgeSelection::Children, children) {
        Run::Stopped(stop) => Run::Stopped(stop),
        Run::Done { value: _, next } => run_connect_side(
            replies,
            next,
            segment.parent,
            EdgeSelection::Parents,
            parents,
        ),
    }
}

/// Lists the edges on one side of a node.
fn direct_edges(editor: &mut Editor, of: Selector, side: EdgeSelection) -> (r: Result<
    Vec<Edge>,
    Stop,
>)
    ensures
        agrees_in_view(
            edges_reply(old(editor).replies@, old(editor).next as nat, list_edges(of, side)),
            *old(editor),
            *final(editor),
            r,
        ),
{
    match side {
        EdgeSelection::Children => editor.direct_children(of),
        EdgeSelection::Parents => editor.direct_parents(of),
    }
}

/// Finds the first edge that leads to a node.
pub fn find_edge_to(edges: &Vec<Edge>, node: Selector) -> (r: Option<Edge>)
    ensures
        r == first_edge_to(edges@, node),
{
    let mut i: usize = 0;
    assert(edges@.skip(0) =~= edges@);
    while i < edges.len()
        invariant
            i <= edges.len(),
            first_edge_to(edges@, node) == first_edge_to(edges@.skip(i as int), node),
        decreases edges.len() - i,
    {
        assert(edges@.skip(i as int).first() == edges@[i as int]);
        assert(edges@.skip(i as int).drop_first() =~= edges@.skip(i + 1));
        if edges[i].node == node {
            return Some(edges[i]);
        }
        i = i + 1;
    }
    None
}

/// Finds the edges to the wanted nodes.
fn select_edges(editor: &mut Editor, available: &Vec<Edge>, wanted: &Vec<Selector>) -> (r: Result<
    Vec<Edge>,
    Stop,
>)
    ensures
        agrees_in_view(
            run_selection(
                old(editor).replies@,
                old(editor).next as nat,
                available@,
                wanted@,
                Seq::empty(),
            ),
            *old(editor),
            *final(editor),
            r,
        ),
{
    let mut selected: Vec<Edge> = Vec::with_capacity(wanted.len());
    let mut i: usize = 0;
    assert(wanted@.skip(0) =~= wanted@);
    while i < wanted.len()
        invariant
            i <= wanted.len(),
            editor.replies@ == old(editor).replies@,
            run_selection(
                old(editor).replies@,
                old(editor).next as nat,
                available@,
                wanted@,
                Seq::empty(),
            ) == run_selection(
                editor.replies@,
                editor.next as nat,
                available@,
                wanted@.skip(i as int),
                selected@,
            ),
        decreases wanted.len() - i,
    {
        assert(wanted@.skip(i as int).first() == wanted@[i as int]);
        assert(wanted@.skip(i as int).drop_first() =~= wanted@.skip(i + 1));
        let selector = editor.resolve_selector(wanted[i])?;
        match find_edge_to(available, selector) {
            Some(edge) => selected.push(edge),
            None => return Err(Stop::Failed(Failure::EdgeNotFound)),
        }
        i = i + 1;
    }
    Ok(selected)
}

/// Reads the edges of a node on one side that a set selects, with their orders.
pub fn selected_edges_from_set(
    editor: &mut Editor,
    target: Selector,
    selectors: &SelectorSet,
    edge_selection: EdgeSelection,
) -> (r: Result<Vec<Edge>, Stop>)
    ensures
        agrees_in_view(
            run_selected_edges(
                old(editor).replies@,
                old(editor).next as nat,
                target,
                selectors@,
                edge_selection,
            ),
            *old(editor),
            *final(editor),
            r,
        ),
{
    let available = direct_edges(editor, target, edge_selection)?;
    match selectors {
        SelectorSet::All => Ok(available),
        SelectorSet::Nothing => Ok(Vec::new()),
        SelectorSet::Only(some_selectors) => select_edges(editor, &available, some_selectors),
    }
}

/// The greatest order among edges, 0 if there are none.
pub fn greatest_order(edges: &Vec<Edge>) -> (r: usize)
    ensures
        r == max_order(edges@),
{
    let mut max: usize = 0;
    let mut i: usize = 0;
    while i < edges.len()
        invariant
            i <= edges.len(),
            max == max_order(edges@.take(i as int)),
        decreases edges.len() - i,
    {
        assert(edges@.take(i + 1).drop_last() =~= edges@.take(i as int));
        assert(edges@.take(i + 1).last() == edges@[i as int]);
        if edges[i].order > max {
            max = edges[i].order;
        }
        i = i + 1;
    }
    assert(edges@.take(i as int) =~= edges@);
    max
}

/// Joins a node to neighbours on one side, by orders above those of its edges there.
fn connect_side(
    editor: &mut Editor,
    node: Selector,
    side: EdgeSelection,
    edges: &Vec<Edge>,
) -> (r: Result<(), Stop>)
    ensures
        agrees(
            run_connect_side(
                old(editor).replies@,
                old(editor).next as nat,
                node,
                side,
                edges@,
            ),
            *old(editor),
            *final(editor),
            r,
        ),
{
    let present = direct_edges(editor, node, side)?;
    let max_weight = greatest_order(&present);
    let mut i: usize = 0;
    assert(edges@.skip(0) =~= edges@);
    while i < edges.len()
        invariant
            i <= edges.len(),
            editor.replies@ == old(editor).replies@,
            run_connect_side(
                old(editor).replies@,
                old(editor).next as nat,
                node,
                side,
                edges@,
            ) == run_join_all(
                editor.replies@,
                editor.next as nat,
                node,
                side,
                edges@.skip(i as int),
                max_weight as nat,
            ),
        decreases edges.len() - i,
    {
        assert(edges@.skip(i as int).first() == edges@[i as int]);
        assert(edges@.skip(i as int).drop_first() =~= edges@.skip(i + 1));
        let edge = edges[i];
        let next_order = match max_weight.checked_add(edge.order) {
            Some(sum) => match sum.checked_add(1) {
                Some(order) => order,
                None => return Err(Stop::Failed(Failure::EdgeOrderOverflow)),
            },
            None => return Err(Stop::Failed(Failure::EdgeOrderOverflow)),
        };
        match side {
            EdgeSelection::Children => editor.add_edge(edge.node, node, next_order)?,
            EdgeSelection::Parents => editor.add_edge(node, edge.node, next_order)?,
        }
        i = i + 1;
    }
    Ok(())
}

/// Joins the ends of a segment to children and to parents, by orders above those of the edges
/// that the ends have.
///
/// An edge whose new order does not fit a `usize` is an error.
pub fn connect_segment_to_edges(
    editor: &mut Editor,
    delimiter: Segment,
    children: &Vec<Edge>,
    parents: &Vec<Edge>,
) -> (r: Result<(), Stop>)
    ensures
        agrees(
            run_connect(
                old(editor).replies@,
                old(editor).next as nat,
                delimiter,
                children@,
                parents@,
            ),
            *old(editor),
            *final(editor),
            r,
        ),
{
    connect_side(editor, delimiter.child, EdgeSelection::Children, children)?;
    connect_side(editor, delimiter.parent, EdgeSelection::Parents, parents)
}

} // verus!

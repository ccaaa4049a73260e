//! The conversation with the editor of the commit graph.
//!
//! An [`Editor`] replays what the graph editor replied so far. Where the replies end, the
//! operations stop with the [`Command`] that comes next. Whoever runs them performs the command,
//! adds the reply, and runs them again from the start.
use crate::bytes::copy_bytes;
use crate::object_id::ObjectId;
use crate::stop::{Failure, FailureView, Stop, StopView};
use vstd::prelude::*;

verus! {

/// A node of the commit graph that is being edited.
#[derive(Clone, Copy, Debug, PartialEq, Eq, Structural)]
pub struct Selector {
    pub index: u64,
}

/// Some of the neighbours of a node.
#[derive(Debug, PartialEq, Eq)]
pub enum SelectorSet {
    All,
    Nothing,
    Only(Vec<Selector>),
}

/// A [`SelectorSet`] with its list as a sequence.
pub enum SelectorSetView {
    All,
    Nothing,
    Only(Seq<Selector>),
}

impl View for SelectorSet {
    type V = SelectorSetView;

    open spec fn view(&self) -> SelectorSetView {
        match *self {
            SelectorSet::All => SelectorSetView::All,
            SelectorSet::Nothing => SelectorSetView::Nothing,
            SelectorSet::Only(list) => SelectorSetView::Only(list@),
        }
    }
}

/// A chain of nodes, from the child at its top to the parent at its bottom.
#[derive(Clone, Copy, Debug, PartialEq, Eq, Structural)]
pub struct Segment {
    pub child: Selector,
    pub parent: Selector,
}

/// An edge to a neighbour, with its position among the edges.
#[derive(Clone, Copy, Debug, PartialEq, Eq, Structural)]
pub struct Edge {
    pub node: Selector,
    pub order: usize,
}

/// What a node of the graph stands for.
#[derive(Clone, Copy, Debug, PartialEq, Eq)]
pub enum Step {
    /// The reference of the branch that is being integrated.
    Reference,
    /// A commit that is new to the graph.
    NewPick { id: ObjectId },
    /// A step that was read from the graph, by the handle under which the editor keeps it, with
    /// its commit if it picks one.
    Known { handle: u64, pick: Option<ObjectId> },
}

impl Step {
    /// The commit that a step picks.
    pub open spec fn spec_pick(self) -> Option<ObjectId> {
        match self {
            Step::Reference => None,
            Step::NewPick { id } => Some(id),
            Step::Known { handle: _, pick } => pick,
        }
    }

    /// The commit that a step picks.
    pub fn pick(&self) -> (r: Option<ObjectId>)
        ensures
            r == self.spec_pick(),
    {
        match self {
            Step::Reference => None,
            Step::NewPick { id } => Some(*id),
            Step::Known { handle: _, pick } => *pick,
        }
    }
}

/// Which dates a new commit gets.
#[derive(Clone, Copy, Debug, PartialEq, Eq, Structural)]
pub enum DateMode {
    /// The committer date is set anew, the author date is kept.
    CommitterUpdateAuthorKeep,
}

/// A commit that is like another one but for its parents, its tree and its message.
#[derive(Debug, PartialEq, Eq)]
pub struct CommitDraft {
    pub like: ObjectId,
    pub parents: Vec<ObjectId>,
    pub tree: ObjectId,
    pub message: Vec<u8>,
}

/// A [`CommitDraft`] with its lists as sequences.
pub struct CommitDraftView {
    pub like: ObjectId,
    pub parents: Seq<ObjectId>,
    pub tree: ObjectId,
    pub message: Seq<u8>,
}

impl View for CommitDraft {
    type V = CommitDraftView;

    open spec fn view(&self) -> CommitDraftView {
        CommitDraftView {
            like: self.like,
            parents: self.parents@,
            tree: self.tree,
            message: self.message@,
        }
    }
}

/// What the editor of the commit graph is asked to do.
#[derive(Debug, PartialEq, Eq)]
pub enum Command {
    /// Find the node of a reference.
    SelectReference { name: Vec<u8> },
    /// Find the node of a commit.
    SelectCommit { id: ObjectId },
    /// Find the node of a commit, if there is one.
    TrySelectCommit { id: ObjectId },
    /// Tell which parents of a node are to be cut off with it.
    DetermineParents { of: Selector },
    /// Bring a selector up to date.
    ResolveSelector { selector: Selector },
    /// List the edges from the children of a node.
    DirectChildren { of: Selector },
    /// List the edges to the parents of a node.
    DirectParents { of: Selector },
    /// Cut a segment off from neighbours above and below it, without joining these.
    DisconnectSegment { segment: Segment, children: SelectorSet, parents: SelectorSet },
    /// Read the step of a node.
    LookupStep { of: Selector },
    /// Put a new node with a step below another.
    InsertBelow { target: Selector, step: Step },
    /// Add an edge.
    AddEdge { child: Selector, parent: Selector, order: usize },
    /// Sort nodes so that parents come before their children.
    OrderByParentage { selectors: Vec<Selector> },
    /// Find the commit of a node.
    FindSelectableCommit { selector: Selector },
    /// Read the message of a commit.
    FindCommit { id: ObjectId },
    /// Write a commit that the graph does not track.
    NewCommit { draft: CommitDraft, dates: DateMode },
    /// Carry out the changes.
    Rebase,
}

/// A [`Command`] with its lists as sequences.
pub enum CommandView {
    SelectReference { name: Seq<u8> },
    SelectCommit { id: ObjectId },
    TrySelectCommit { id: ObjectId },
    DetermineParents { of: Selector },
    ResolveSelector { selector: Selector },
    DirectChildren { of: Selector },
    DirectParents { of: Selector },
    DisconnectSegment { segment: Segment, children: SelectorSetView, parents: SelectorSetView },
    LookupStep { of: Selector },
    InsertBelow { target: Selector, step: Step },
    AddEdge { child: Selector, parent: Selector, order: usize },
    OrderByParentage { selectors: Seq<Selector> },
    FindSelectableCommit { selector: Selector },
    FindCommit { id: ObjectId },
    NewCommit { draft: CommitDraftView, dates: DateMode },
    Rebase,
}

impl View for Command {
    type V = CommandView;

    open spec fn view(&self) -> CommandView {
        match *self {
            Command::SelectReference { name } => CommandView::SelectReference { name: name@ },
            Command::SelectCommit { id } => CommandView::SelectCommit { id },
            Command::TrySelectCommit { id } => CommandView::TrySelectCommit { id },
            Command::DetermineParents { of } => CommandView::DetermineParents { of },
            Command::ResolveSelector { selector } => CommandView::ResolveSelector { selector },
            Command::DirectChildren { of } => CommandView::DirectChildren { of },
            Command::DirectParents { of } => CommandView::DirectParents { of },
            Command::DisconnectSegment { segment, children, parents } =>
                CommandView::DisconnectSegment {
                    segment,
                    children: children@,
                    parents: parents@,
                },
            Command::LookupStep { of } => CommandView::LookupStep { of },
            Command::InsertBelow { target, step } => CommandView::InsertBelow { target, step },
            Command::AddEdge { child, parent, order } =>
                CommandView::AddEdge { child, parent, order },
            Command::OrderByParentage { selectors } =>
                CommandView::OrderByParentage { selectors: selectors@ },
            Command::FindSelectableCommit { selector } =>
                CommandView::FindSelectableCommit { selector },
            Command::FindCommit { id } => CommandView::FindCommit { id },
            Command::NewCommit { draft, dates } =>
                CommandView::NewCommit { draft: draft@, dates },
            Command::Rebase => CommandView::Rebase,
        }
    }
}

/// What the editor of the commit graph replied to a command.
#[derive(Debug, PartialEq, Eq)]
pub enum Reply {
    /// A node that was found, brought up to date or inserted.
    Node(Selector),
    /// A node, if there is one.
    MaybeNode(Option<Selector>),
    /// Some of the neighbours of a node.
    Neighbours(SelectorSet),
    /// Edges to neighbours.
    Edges(Vec<Edge>),
    /// Nodes in order.
    Nodes(Vec<Selector>),
    /// The step of a node.
    Step(Step),
    /// A commit.
    Commit(ObjectId),
    /// The message of a commit.
    Message(Vec<u8>),
    /// The command was carried out.
    Done,
}

/// The replies of the graph editor, and how many of them were used.
#[derive(Debug, PartialEq, Eq)]
pub struct Editor {
    pub replies: Vec<Reply>,
    pub next: usize,
}

/// How far an operation gets with the replies of the editor.
pub enum Run<T> {
    /// It comes to a value, and so many replies are used by then.
    Done { value: T, next: nat },
    /// It stops.
    Stopped(StopView),
}

/// The reply to a command if it is the next reply, `None` if the command is still to be carried
/// out.
pub open spec fn reply(replies: Seq<Reply>, at: nat) -> Option<Reply> {
    if at < replies.len() {
        Some(replies[at as int])
    } else {
        None
    }
}

/// The reply does not fit the command.
pub open spec fn unexpected<T>() -> Run<T> {
    Run::Stopped(StopView::Failed(FailureView::UnexpectedReply))
}

/// A command that is replied to with a node.
pub open spec fn node_reply(replies: Seq<Reply>, at: nat, command: CommandView) -> Run<Selector> {
    match reply(replies, at) {
        None => Run::Stopped(StopView::Pending(command)),
        Some(Reply::Node(node)) => Run::Done { value: node, next: at + 1 },
        _ => unexpected(),
    }
}

/// A command that is replied to with a node if there is one.
pub open spec fn maybe_node_reply(replies: Seq<Reply>, at: nat, command: CommandView) -> Run<
    Option<Selector>,
> {
    match reply(replies, at) {
        None => Run::Stopped(StopView::Pending(command)),
        Some(Reply::MaybeNode(node)) => Run::Done { value: node, next: at + 1 },
        _ => unexpected(),
    }
}

/// A command that is replied to with some neighbours.
pub open spec fn neighbours_reply(replies: Seq<Reply>, at: nat, command: CommandView) -> Run<
    SelectorSetView,
> {
    match reply(replies, at) {
        None => Run::Stopped(StopView::Pending(command)),
        Some(Reply::Neighbours(set)) => Run::Done { value: set@, next: at + 1 },
        _ => unexpected(),
    }
}

/// A command that is replied to with edges.
pub open spec fn edges_reply(replies: Seq<Reply>, at: nat, command: CommandView) -> Run<Seq<Edge>> {
    match reply(replies, at) {
        None => Run::Stopped(StopView::Pending(command)),
        Some(Reply::Edges(edges)) => Run::Done { value: edges@, next: at + 1 },
        _ => unexpected(),
    }
}

/// A command that is replied to with nodes in order.
pub open spec fn nodes_reply(replies: Seq<Reply>, at: nat, command: CommandView) -> Run<
    Seq<Selector>,
> {
    match reply(replies, at) {
        None => Run::Stopped(StopView::Pending(command)),
        Some(Reply::Nodes(nodes)) => Run::Done { value: nodes@, next: at + 1 },
        _ => unexpected(),
    }
}

/// A command that is replied to with a step.
pub open spec fn step_reply(replies: Seq<Reply>, at: nat, command: CommandView) -> Run<Step> {
    match reply(replies, at) {
        None => Run::Stopped(StopView::Pending(command)),
        Some(Reply::Step(step)) => Run::Done { value: step, next: at + 1 },
        _ => unexpected(),
    }
}

/// A command that is replied to with a commit.
pub open spec fn commit_reply(replies: Seq<Reply>, at: nat, command: CommandView) -> Run<ObjectId> {
    match reply(replies, at) {
        None => Run::Stopped(StopView::Pending(command)),
        Some(Reply::Commit(id)) => Run::Done { value: id, next: at + 1 },
        _ => unexpected(),
    }
}

/// A command that is replied to with a message.
pub open spec fn message_reply(replies: Seq<Reply>, at: nat, command: CommandView) -> Run<Seq<u8>> {
    match reply(replies, at) {
        None => Run::Stopped(StopView::Pending(command)),
        Some(Reply::Message(message)) => Run::Done { value: message@, next: at + 1 },
        _ => unexpected(),
    }
}

/// A command that is only carried out.
pub open spec fn done_reply(replies: Seq<Reply>, at: nat, command: CommandView) -> Run<()> {
    match reply(replies, at) {
        None => Run::Stopped(StopView::Pending(command)),
        Some(Reply::Done) => Run::Done { value: (), next: at + 1 },
        _ => unexpected(),
    }
}

/// Whether an operation on an editor does what `run` says.
pub open spec fn agrees<T>(run: Run<T>, before: Editor, after: Editor, r: Result<T, Stop>) -> bool {
    &&& after.replies@ == before.replies@
    &&& match run {
        Run::Done { value, next } => r == Ok::<T, Stop>(value) && after.next == next,
        Run::Stopped(stop) => r is Err && r->Err_0@ == stop,
    }
}

/// Whether an operation on an editor does what `run` says of its result's view.
pub open spec fn agrees_in_view<T: View>(
    run: Run<T::V>,
    before: Editor,
    after: Editor,
    r: Result<T, Stop>,
) -> bool {
    &&& after.replies@ == before.replies@
    &&& match run {
        Run::Done { value, next } => r is Ok && r->Ok_0@ == value && after.next == next,
        Run::Stopped(stop) => r is Err && r->Err_0@ == stop,
    }
}

/// A copy of a list of nodes.
pub fn copy_nodes(nodes: &Vec<Selector>) -> (r: Vec<Selector>)
    ensures
        r@ == nodes@,
{
    let mut r: Vec<Selector> = Vec::with_capacity(nodes.len());
    let mut i: usize = 0;
    while i < nodes.len()
        invariant
            i <= nodes.len(),
            r@ == nodes@.take(i as int),
        decreases nodes.len() - i,
    {
        r.push(nodes[i]);
        i = i + 1;
    }
    assert(nodes@.take(i as int) =~= nodes@);
    r
}

/// A copy of a list of edges.
pub fn copy_edges(edges: &Vec<Edge>) -> (r: Vec<Edge>)
    ensures
        r@ == edges@,
{
    let mut r: Vec<Edge> = Vec::with_capacity(edges.len());
    let mut i: usize = 0;
    while i < edges.len()
        invariant
            i <= edges.len(),
            r@ == edges@.take(i as int),
        decreases edges.len() - i,
    {
        r.push(edges[i]);
        i = i + 1;
    }
    assert(edges@.take(i as int) =~= edges@);
    r
}

impl SelectorSet {
    /// The same neighbours once more.
    pub fn duplicate(&self) -> (r: SelectorSet)
        ensures
            r@ == self@,
    {
        match self {
            SelectorSet::All => SelectorSet::All,
            SelectorSet::Nothing => SelectorSet::Nothing,
            SelectorSet::Only(list) => SelectorSet::Only(copy_nodes(list)),
        }
    }
}

impl Editor {
    /// A conversation that starts from its beginning.
    pub fn new(replies: Vec<Reply>) -> (r: Editor)
        ensures
            r.replies@ == replies@,
            r.next == 0,
    {
        Editor { replies, next: 0 }
    }

    /// Uses the next reply, or stops with the command that has to be carried out first.
    fn ask(&mut self, command: Command) -> (r: Result<usize, Stop>)
        ensures
            final(self).replies@ == old(self).replies@,
            match reply(old(self).replies@, old(self).next as nat) {
                None => r is Err && r->Err_0@ == StopView::Pending(command@),
                Some(_) => {
                    &&& r == Ok::<usize, Stop>(old(self).next)
                    &&& final(self).next == old(self).next + 1
                },
            },
    {
        if self.next >= self.replies.len() {
            return Err(Stop::Pending(command));
        }
        let at = self.next;
        self.next = at + 1;
        Ok(at)
    }

    /// Finds the node of a reference.
    pub fn select_reference(&mut self, name: &[u8]) -> (r: Result<Selector, Stop>)
        ensures
            agrees(
                node_reply(
                    old(self).replies@,
                    old(self).next as nat,
                    CommandView::SelectReference { name: name@ },
                ),
                *old(self),
                *final(self),
                r,
            ),
    {
        let at = self.ask(Command::SelectReference { name: copy_bytes(name) })?;
        match &self.replies[at] {
            Reply::Node(node) => Ok(*node),
            _ => Err(Stop::Failed(Failure::UnexpectedReply)),
        }
    }

    /// Finds the node of a commit.
    pub fn select_commit(&mut self, id: ObjectId) -> (r: Result<Selector, Stop>)
        ensures
            agrees(
                node_reply(
                    old(self).replies@,
                    old(self).next as nat,
                    CommandView::SelectCommit { id },
                ),
                *old(self),
                *final(self),
                r,
            ),
    {
        let at = self.ask(Command::SelectCommit { id })?;
        match &self.replies[at] {
            Reply::Node(node) => Ok(*node),
            _ => Err(Stop::Failed(Failure::UnexpectedReply)),
        }
    }

    /// Finds the node of a commit, if there is one.
    pub fn try_select_commit(&mut self, id: ObjectId) -> (r: Result<Option<Selector>, Stop>)
        ensures
            agrees(
                maybe_node_reply(
                    old(self).replies@,
                    old(self).next as nat,
                    CommandView::TrySelectCommit { id },
                ),
                *old(self),
                *final(self),
                r,
            ),
    {
        let at = self.ask(Command::TrySelectCommit { id })?;
        match &self.replies[at] {
            Reply::MaybeNode(node) => Ok(*node),
            _ => Err(Stop::Failed(Failure::UnexpectedReply)),
        }
    }

    /// Tells which parents of a node are to be cut off with it.
    pub fn determine_parent_selector(&mut self, of: Selector) -> (r: Result<SelectorSet, Stop>)
        ensures
            agrees_in_view(
                neighbours_reply(
                    old(self).replies@,
                    old(self).next as nat,
                    CommandView::DetermineParents { of },
                ),
                *old(self),
                *final(self),
                r,
            ),
    {
        let at = self.ask(Command::DetermineParents { of })?;
        match &self.replies[at] {
            Reply::Neighbours(set) => Ok(set.duplicate()),
            _ => Err(Stop::Failed(Failure::UnexpectedReply)),
        }
    }

    /// Brings a selector up to date.
    pub fn resolve_selector(&mut self, selector: Selector) -> (r: Result<Selector, Stop>)
        ensures
            agrees(
                node_reply(
                    old(self).replies@,
                    old(self).next as nat,
                    CommandView::ResolveSelector { selector },
                ),
                *old(self),
                *final(self),
                r,
            ),
    {
        let at = self.ask(Command::ResolveSelector { selector })?;
        match &self.replies[at] {
            Reply::Node(node) => Ok(*node),
            _ => Err(Stop::Failed(Failure::UnexpectedReply)),
        }
    }

    /// Lists the edges from the children of a node.
    pub fn direct_children(&mut self, of: Selector) -> (r: Result<Vec<Edge>, Stop>)
        ensures
            agrees_in_view(
                edges_reply(
                    old(self).replies@,
                    old(self).next as nat,
                    CommandView::DirectChildren { of },
                ),
                *old(self),
                *final(self),
                r,
            ),
    {
        let at = self.ask(Command::DirectChildren { of })?;
        match &self.replies[at] {
            Reply::Edges(edges) => Ok(copy_edges(edges)),
            _ => Err(Stop::Failed(Failure::UnexpectedReply)),
        }
    }

    /// Lists the edges to the parents of a node.
    pub fn direct_parents(&mut self, of: Selector) -> (r: Result<Vec<Edge>, Stop>)
        ensures
            agrees_in_view(
                edges_reply(
                    old(self).replies@,
                    old(self).next as nat,
                    CommandView::DirectParents { of },
                ),
                *old(self),
                *final(self),
                r,
            ),
    {
        let at = self.ask(Command::DirectParents { of })?;
        match &self.replies[at] {
            Reply::Edges(edges) => Ok(copy_edges(edges)),
            _ => Err(Stop::Failed(Failure::UnexpectedReply)),
        }
    }

    /// Cuts a segment off from neighbours above and below it, without joining these.
    pub fn disconnect_segment_from(
        &mut self,
        segment: Segment,
        children: SelectorSet,
        parents: SelectorSet,
    ) -> (r: Result<(), Stop>)
        ensures
            agrees(
                done_reply(
                    old(self).replies@,
                    old(self).next as nat,
                    CommandView::DisconnectSegment {
                        segment,
                        children: children@,
                        parents: parents@,
                    },
                ),
                *old(self),
                *final(self),
                r,
            ),
    {
        let at = self.ask(Command::DisconnectSegment { segment, children, parents })?;
        match &self.replies[at] {
            Reply::Done => Ok(()),
            _ => Err(Stop::Failed(Failure::UnexpectedReply)),
        }
    }

    /// Reads the step of a node.
    pub fn lookup_step(&mut self, of: Selector) -> (r: Result<Step, Stop>)
        ensures
            agrees(
                step_reply(
                    old(self).replies@,
                    old(self).next as nat,
                    CommandView::LookupStep { of },
                ),
                *old(self),
                *final(self),
                r,
            ),
    {
        let at = self.ask(Command::LookupStep { of })?;
        match &self.replies[at] {
            Reply::Step(step) => Ok(*step),
            _ => Err(Stop::Failed(Failure::UnexpectedReply)),
        }
    }

    /// Puts a new node with a step below another.
    pub fn insert_below(&mut self, target: Selector, step: Step) -> (r: Result<Selector, Stop>)
        ensures
            agrees(
                node_reply(
                    old(self).replies@,
                    old(self).next as nat,
                    CommandView::InsertBelow { target, step },
                ),
                *old(self),
                *final(self),
                r,
            ),
    {
        let at = self.ask(Command::InsertBelow { target, step })?;
        match &self.replies[at] {
            Reply::Node(node) => Ok(*node),
            _ => Err(Stop::Failed(Failure::UnexpectedReply)),
        }
    }

    /// Adds an edge.
    pub fn add_edge(&mut self, child: Selector, parent: Selector, order: usize) -> (r: Result<
        (),
        Stop,
    >)
        ensures
            agrees(
                done_reply(
                    old(self).replies@,
                    old(self).next as nat,
                    CommandView::AddEdge { child, parent, order },
                ),
                *old(self),
                *final(self),
                r,
            ),
    {
        let at = self.ask(Command::AddEdge { child, parent, order })?;
        match &self.replies[at] {
            Reply::Done => Ok(()),
            _ => Err(Stop::Failed(Failure::UnexpectedReply)),
        }
    }

    /// Sorts nodes so that parents come before their children.
    pub fn order_commit_selectors_by_parentage(&mut self, selectors: Vec<Selector>) -> (r: Result<
        Vec<Selector>,
        Stop,
    >)
        ensures
            agrees_in_view(
                nodes_reply(
                    old(self).replies@,
                    old(self).next as nat,
                    CommandView::OrderByParentage { selectors: selectors@ },
                ),
                *old(self),
                *final(self),
                r,
            ),
    {
        let at = self.ask(Command::OrderByParentage { selectors })?;
        match &self.replies[at] {
            Reply::Nodes(nodes) => Ok(copy_nodes(nodes)),
            _ => Err(Stop::Failed(Failure::UnexpectedReply)),
        }
    }

    /// Finds the commit of a node.
    pub fn find_selectable_commit(&mut self, selector: Selector) -> (r: Result<ObjectId, Stop>)
        ensures
            agrees(
                commit_reply(
                    old(self).replies@,
                    old(self).next as nat,
                    CommandView::FindSelectableCommit { selector },
                ),
                *old(self),
                *final(self),
                r,
            ),
    {
        let at = self.ask(Command::FindSelectableCommit { selector })?;
        match &self.replies[at] {
            Reply::Commit(id) => Ok(*id),
            _ => Err(Stop::Failed(Failure::UnexpectedReply)),
        }
    }

    /// Reads the message of a commit.
    pub fn find_commit(&mut self, id: ObjectId) -> (r: Result<Vec<u8>, Stop>)
        ensures
            agrees_in_view(
                message_reply(
                    old(self).replies@,
                    old(self).next as nat,
                    CommandView::FindCommit { id },
                ),
                *old(self),
                *final(self),
                r,
            ),
    {
        let at = self.ask(Command::FindCommit { id })?;
        match &self.replies[at] {
            Reply::Message(message) => Ok(copy_bytes(message.as_slice())),
            _ => Err(Stop::Failed(Failure::UnexpectedReply)),
        }
    }

    /// Writes a commit that the graph does not track.
    pub fn new_commit_untracked(&mut self, draft: CommitDraft, dates: DateMode) -> (r: Result<
        ObjectId,
        Stop,
    >)
        ensures
            agrees(
                commit_reply(
                    old(self).replies@,
                    old(self).next as nat,
                    CommandView::NewCommit { draft: draft@, dates },
                ),
                *old(self),
                *final(self),
                r,
            ),
    {
        let at = self.ask(Command::NewCommit { draft, dates })?;
        match &self.replies[at] {
            Reply::Commit(id) => Ok(*id),
            _ => Err(Stop::Failed(Failure::UnexpectedReply)),
        }
    }

    /// Carries out the changes.
    pub fn rebase(&mut self) -> (r: Result<(), Stop>)
        ensures
            agrees(
                done_reply(
                    old(self).replies@,
                    old(self).next as nat,
                    CommandView::Rebase,
                ),
                *old(self),
                *final(self),
                r,
            ),
    {
        let at = self.ask(Command::Rebase)?;
        match &self.replies[at] {
            Reply::Done => Ok(()),
            _ => Err(Stop::Failed(Failure::UnexpectedReply)),
        }
    }
}

} // verus!

//! Integrating a branch in a commit graph kept in memory.
use branch_integration::integration::edges::{
    connect_segment_to_edges, find_edge_to, greatest_order, selected_edges_from_set,
    EdgeSelection,
};
use branch_integration::integration::editor::{
    Command, CommitDraft, DateMode, Edge, Editor, Reply, Segment, Selector, SelectorSet, Step,
};
use branch_integration::integration::segment::{
    already_connected_parent_for_step, existing_or_new_pick_step, integrate_branch_with_steps,
    integration_steps_to_segment_steps_for_editor,
};
use branch_integration::integration::squash::{
    apply_merge_commit_changes_outcome, parents_of_squash, squash_step_for_editor,
};
use branch_integration::integration::steps::{InteractiveIntegration, InteractiveIntegrationStep};
use branch_integration::merge::{MergeCommitChangesConflict, MergeCommitChangesOutcome};
use branch_integration::merge_options::FileFavor;
use branch_integration::object_id::ObjectId;
use branch_integration::plan::commits_below_ranges;
use branch_integration::repository::{
    CommitFact, ConflictEntries, ConflictMarkersFact, ConflictedTreeFact, MergedTree,
    MergedTreeFact, OctopusBaseFact, Query, Repository, TreeFact, TreeKind,
};
use branch_integration::stop::{Failure, Stop};

fn id(n: u8) -> ObjectId {
    ObjectId { bytes: [n; 20] }
}

fn node(index: u64) -> Selector {
    Selector { index }
}

#[derive(Clone, Copy, PartialEq)]
enum Node {
    Reference(&'static str),
    Pick(ObjectId),
}

/// A commit graph that carries out commands.
struct Graph {
    nodes: Vec<Node>,
    /// Child, parent and order of each edge.
    edges: Vec<(u64, u64, usize)>,
    /// Which parents go with a node; all of them if there is no entry.
    parents_of: Vec<(u64, SelectorSet)>,
    performed: Vec<Command>,
    rebased: bool,
}

impl Graph {
    /// `workspace` above the branch `A` above `commits` above the root, each on the next.
    fn branch(commits: &[u8]) -> Self {
        let mut nodes = vec![Node::Reference("workspace"), Node::Reference("refs/heads/A")];
        nodes.extend(commits.iter().map(|n| Node::Pick(id(*n))));
        let edges = (1..nodes.len() as u64).map(|n| (n - 1, n, 0)).collect();
        Graph { nodes, edges, parents_of: Vec::new(), performed: Vec::new(), rebased: false }
    }

    fn find(&self, wanted: Node) -> Option<Selector> {
        self.nodes.iter().rposition(|known| *known == wanted).map(|at| node(at as u64))
    }

    fn selected(set: &SelectorSet, other: u64) -> bool {
        match set {
            SelectorSet::All => true,
            SelectorSet::Nothing => false,
            SelectorSet::Only(list) => list.contains(&node(other)),
        }
    }

    fn perform(&mut self, command: Command) -> Reply {
        let reply = match &command {
            Command::SelectReference { name } => {
                assert_eq!(name, b"refs/heads/A");
                Reply::Node(self.find(Node::Reference("refs/heads/A")).expect("the branch"))
            }
            Command::SelectCommit { id } => Reply::Node(self.find(Node::Pick(*id)).expect("known")),
            Command::TrySelectCommit { id } => Reply::MaybeNode(self.find(Node::Pick(*id))),
            Command::DetermineParents { of } => Reply::Neighbours(
                self.parents_of
                    .iter()
                    .find(|(known, _)| *known == of.index)
                    .map_or(SelectorSet::All, |(_, set)| set.duplicate()),
            ),
            Command::ResolveSelector { selector } => Reply::Node(*selector),
            Command::DirectChildren { of } => Reply::Edges(
                self.edges
                    .iter()
                    .filter(|(_, parent, _)| *parent == of.index)
                    .map(|(child, _, order)| Edge { node: node(*child), order: *order })
                    .collect(),
            ),
            Command::DirectParents { of } => Reply::Edges(
                self.edges
                    .iter()
                    .filter(|(child, _, _)| *child == of.index)
                    .map(|(_, parent, order)| Edge { node: node(*parent), order: *order })
                    .collect(),
            ),
            Command::DisconnectSegment { segment, children, parents } => {
                let segment = *segment;
                self.edges.retain(|(child, parent, _)| {
                    !(*parent == segment.child.index && Graph::selected(children, *child))
                        && !(*child == segment.parent.index && Graph::selected(parents, *parent))
                });
                Reply::Done
            }
            Command::LookupStep { of } => Reply::Step(Step::Known {
                handle: of.index,
                pick: match self.nodes[of.index as usize] {
                    Node::Pick(id) => Some(id),
                    Node::Reference(_) => None,
                },
            }),
            Command::InsertBelow { target, step } => {
                let added = self.nodes.len() as u64;
                self.nodes.push(Node::Pick(step.pick().expect("a pick")));
                for edge in self.edges.iter_mut().filter(|edge| edge.0 == target.index) {
                    edge.0 = added;
                }
                self.edges.push((target.index, added, 0));
                Reply::Node(node(added))
            }
            Command::AddEdge { child, parent, order } => {
                self.edges.push((child.index, parent.index, *order));
                Reply::Done
            }
            Command::OrderByParentage { selectors } => {
                let mut nodes = selectors.clone();
                nodes.sort_by_key(|node| std::cmp::Reverse(node.index));
                Reply::Nodes(nodes)
            }
            Command::FindSelectableCommit { selector } => {
                match self.nodes[selector.index as usize] {
                    Node::Pick(id) => Reply::Commit(id),
                    Node::Reference(_) => panic!("no commit"),
                }
            }
            Command::FindCommit { id } => Reply::Message(format!("commit {}", id.bytes[0]).into()),
            Command::NewCommit { .. } => Reply::Commit(id(0xcc)),
            Command::Rebase => {
                self.rebased = true;
                Reply::Done
            }
        };
        self.performed.push(command);
        reply
    }

    /// The commits below the branch, from child to parent.
    fn chain(&self) -> Vec<u8> {
        let mut at = self.find(Node::Reference("refs/heads/A")).expect("the branch").index;
        let mut commits = Vec::new();
        while let Some((_, parent, _)) = self.edges.iter().find(|(child, _, _)| *child == at) {
            at = *parent;
            match self.nodes[at as usize] {
                Node::Pick(id) => commits.push(id.bytes[0]),
                Node::Reference(_) => panic!("a reference below the branch"),
            }
        }
        commits
    }

    /// Runs an operation until the graph has carried out all its commands.
    fn run<T>(
        &mut self,
        mut repo: Repository,
        answer: impl Fn(Query, &mut Repository),
        operation: impl Fn(&Repository, &mut Editor) -> Result<T, Stop>,
    ) -> Result<T, Failure> {
        let mut replies = Vec::new();
        for _ in 0..200 {
            let mut editor = Editor::new(replies);
            match operation(&repo, &mut editor) {
                Ok(value) => {
                    assert_eq!(editor.next, editor.replies.len(), "every reply was used");
                    return Ok(value);
                }
                Err(Stop::Pending(command)) => {
                    replies = editor.replies;
                    replies.push(self.perform(command));
                }
                Err(Stop::Unknown(query)) => {
                    replies = editor.replies;
                    answer(query, &mut repo);
                }
                Err(Stop::Failed(failure)) => return Err(failure),
            }
        }
        panic!("the operation keeps asking");
    }

    fn integrate(
        &mut self,
        steps: Vec<InteractiveIntegrationStep>,
        base: u8,
    ) -> Result<(), Failure> {
        let integration = InteractiveIntegration { steps, merge_base: id(base) };
        self.run(
            Repository::new(),
            |query, _| panic!("unexpected question: {query:?}"),
            |repo, editor| integrate_branch_with_steps(repo, editor, b"refs/heads/A", &integration),
        )
    }
}

fn pick(n: u8) -> InteractiveIntegrationStep {
    InteractiveIntegrationStep::Pick { commit_id: id(n) }
}

fn pick_upstream(n: u8) -> InteractiveIntegrationStep {
    InteractiveIntegrationStep::PickUpstream { commit_id: id(n) }
}

fn skip(n: u8) -> InteractiveIntegrationStep {
    InteractiveIntegrationStep::Skip { commit_id: id(n) }
}

#[test]
fn steps_apply_from_parent_to_child() {
    // Local: 3 on 2 on the base 1 on the root 9. Upstream adds 7.
    let mut graph = Graph::branch(&[3, 2, 1, 9]);
    graph.integrate(vec![pick(2), pick_upstream(7), pick(3)], 1).unwrap();
    assert_eq!(graph.chain(), vec![3, 7, 2, 1, 9]);
    assert!(graph.rebased);
    assert_eq!(graph.performed.last(), Some(&Command::Rebase));
    assert_eq!(graph.performed.iter().filter(|c| **c == Command::Rebase).count(), 1);
}

#[test]
fn commits_can_be_reordered() {
    let mut graph = Graph::branch(&[3, 2, 1, 9]);
    graph.integrate(vec![pick(3), pick(2)], 1).unwrap();
    assert_eq!(graph.chain(), vec![2, 3, 1, 9]);
}

#[test]
fn skipped_commits_are_cut_off_and_left_out() {
    let mut graph = Graph::branch(&[3, 2, 1, 9]);
    graph.integrate(vec![pick(2), skip(3), skip(8)], 1).unwrap();
    assert_eq!(graph.chain(), vec![2, 1, 9]);
    // The node of commit 3, which the graph has, is cut off from its parents.
    assert!(graph.performed.contains(&Command::DisconnectSegment {
        segment: Segment { child: node(2), parent: node(2) },
        children: SelectorSet::Nothing,
        parents: SelectorSet::All,
    }));
    assert!(graph.edges.iter().all(|(child, _, _)| *child != 2));
    // Commit 8 is not in the graph, so that it is only looked for.
    assert!(graph.performed.contains(&Command::TrySelectCommit { id: id(8) }));
}

#[test]
fn neighbours_are_joined_again_after_the_edges_that_are_there() {
    let mut graph = Graph::branch(&[3, 2, 1, 9]);
    graph.edges.retain(|edge| *edge != (0, 1, 0));
    graph.edges.push((0, 1, 4));
    graph.integrate(vec![pick(2)], 1).unwrap();
    // After the cut the branch has no edge above it, so that the order grows by one only.
    assert!(graph.edges.contains(&(0, 1, 5)));
    assert_eq!(
        graph.performed.iter().filter(|c| matches!(c, Command::AddEdge { .. })).count(),
        2
    );
}

#[test]
fn the_first_commands_cut_the_segment_out() {
    let mut graph = Graph::branch(&[2, 1, 9]);
    graph.parents_of.push((3, SelectorSet::Only(vec![node(4)])));
    graph.integrate(vec![pick_upstream(7)], 1).unwrap();
    let name = b"refs/heads/A".to_vec();
    assert_eq!(
        graph.performed[..8],
        [
            Command::SelectReference { name: name.clone() },
            Command::SelectCommit { id: id(1) },
            Command::DetermineParents { of: node(3) },
            Command::DirectChildren { of: node(1) },
            Command::DirectParents { of: node(3) },
            Command::ResolveSelector { selector: node(4) },
            Command::DisconnectSegment {
                segment: Segment { child: node(1), parent: node(3) },
                children: SelectorSet::All,
                parents: SelectorSet::Only(vec![node(4)]),
            },
            Command::TrySelectCommit { id: id(7) },
        ]
    );
    assert_eq!(graph.chain(), vec![7, 1, 9]);
}

#[test]
fn an_integration_without_steps_is_refused() {
    let mut graph = Graph::branch(&[1]);
    assert_eq!(graph.integrate(vec![], 1), Err(Failure::NoSteps));
    assert!(graph.performed.is_empty());
    assert_eq!(Failure::NoSteps.message(), "Integration steps cannot be empty");
}

#[test]
fn selected_neighbours_must_be_neighbours() {
    let mut graph = Graph::branch(&[2, 1, 9]);
    graph.parents_of.push((3, SelectorSet::Only(vec![node(0)])));
    assert_eq!(graph.integrate(vec![pick(2)], 1), Err(Failure::EdgeNotFound));
    assert_eq!(
        Failure::EdgeNotFound.message(),
        "Selected edge endpoint wasn't found among direct neighbors"
    );
    assert!(!graph.rebased);
}

#[test]
fn replies_must_fit_their_commands() {
    let mut editor = Editor::new(vec![Reply::Done]);
    assert_eq!(
        editor.select_commit(id(1)),
        Err(Stop::Failed(Failure::UnexpectedReply))
    );
    assert_eq!(
        Failure::UnexpectedReply.message(),
        "The graph editor gave an unexpected reply"
    );
}

#[test]
fn edges_keep_their_order_above_the_present_ones() {
    let segment = Segment { child: node(1), parent: node(2) };
    let children = vec![Edge { node: node(10), order: 0 }, Edge { node: node(11), order: 2 }];
    let parents = vec![Edge { node: node(20), order: 1 }];
    let present = vec![Edge { node: node(5), order: 3 }, Edge { node: node(6), order: 7 }];
    assert_eq!(greatest_order(&present), 7);
    assert_eq!(greatest_order(&vec![]), 0);
    assert_eq!(find_edge_to(&present, node(6)), Some(Edge { node: node(6), order: 7 }));
    assert_eq!(find_edge_to(&present, node(7)), None);

    let edges = |list: &[Edge]| Reply::Edges(list.to_vec());
    let mut replies = vec![edges(&present)];
    let mut asked = Vec::new();
    for _ in 0..10 {
        let mut editor = Editor::new(replies);
        match connect_segment_to_edges(&mut editor, segment, &children, &parents) {
            Ok(()) => break,
            Err(Stop::Pending(command)) => {
                replies = editor.replies;
                replies.push(match &command {
                    Command::DirectParents { .. } => edges(&[]),
                    _ => Reply::Done,
                });
                asked.push(command);
            }
            Err(other) => panic!("{other:?}"),
        }
    }
    assert_eq!(
        asked,
        vec![
            Command::AddEdge { child: node(10), parent: node(1), order: 8 },
            Command::AddEdge { child: node(11), parent: node(1), order: 10 },
            Command::DirectParents { of: node(2) },
            Command::AddEdge { child: node(2), parent: node(20), order: 2 },
        ]
    );
}

#[test]
fn an_edge_order_that_is_too_large_is_refused() {
    let segment = Segment { child: node(1), parent: node(2) };
    let children = vec![Edge { node: node(10), order: 0 }];
    let present = vec![Edge { node: node(5), order: usize::MAX }];
    let mut editor = Editor::new(vec![Reply::Edges(present)]);
    assert_eq!(
        connect_segment_to_edges(&mut editor, segment, &children, &vec![]),
        Err(Stop::Failed(Failure::EdgeOrderOverflow))
    );
    assert_eq!(Failure::EdgeOrderOverflow.message(), "The order of a new edge is too large");
}

#[test]
fn edges_are_selected_by_a_set() {
    let available = || vec![Edge { node: node(5), order: 3 }, Edge { node: node(6), order: 7 }];
    let select = |set: &SelectorSet, mut replies: Vec<Reply>| {
        replies.insert(0, Reply::Edges(available()));
        let mut editor = Editor::new(replies);
        selected_edges_from_set(&mut editor, node(1), set, EdgeSelection::Parents)
    };
    assert_eq!(select(&SelectorSet::All, vec![]), Ok(available()));
    assert_eq!(select(&SelectorSet::Nothing, vec![]), Ok(vec![]));
    // A selector is brought up to date before it is looked for.
    assert_eq!(
        select(&SelectorSet::Only(vec![node(99)]), vec![Reply::Node(node(6))]),
        Ok(vec![Edge { node: node(6), order: 7 }])
    );
    assert_eq!(
        select(&SelectorSet::Only(vec![node(6)]), vec![]),
        Err(Stop::Pending(Command::ResolveSelector { selector: node(6) }))
    );
}

#[test]
fn a_pick_that_is_in_place_is_not_inserted_again() {
    let mut graph = Graph::branch(&[2, 1]);
    let no_answers = |query, _: &mut Repository| panic!("unexpected question: {query:?}");
    let step = Step::NewPick { id: id(1) };
    let parent = graph.run(Repository::new(), no_answers, |_, editor| {
        already_connected_parent_for_step(editor, node(2), &step)
    });
    assert_eq!(parent, Ok(Some(node(3))));
    let elsewhere = graph.run(Repository::new(), no_answers, |_, editor| {
        already_connected_parent_for_step(editor, node(1), &step)
    });
    assert_eq!(elsewhere, Ok(None));
    let reference = graph.run(Repository::new(), no_answers, |_, editor| {
        already_connected_parent_for_step(editor, node(1), &Step::Reference)
    });
    assert_eq!(reference, Ok(None));
}

#[test]
fn picks_use_the_step_of_a_known_commit() {
    let mut graph = Graph::branch(&[2, 1]);
    let no_answers = |query, _: &mut Repository| panic!("unexpected question: {query:?}");
    let known = graph.run(Repository::new(), no_answers, |_, editor| {
        existing_or_new_pick_step(editor, id(2))
    });
    assert_eq!(known, Ok(Step::Known { handle: 2, pick: Some(id(2)) }));
    assert!(graph.edges.iter().all(|(child, parent, _)| *child != 2 && *parent != 2));
    let new = graph.run(Repository::new(), no_answers, |_, editor| {
        existing_or_new_pick_step(editor, id(7))
    });
    assert_eq!(new, Ok(Step::NewPick { id: id(7) }));
}

#[test]
fn the_segment_lists_steps_from_child_to_parent() {
    let mut graph = Graph::branch(&[1]);
    let steps = vec![pick_upstream(5), skip(6), pick(7), pick_upstream(8)];
    let listed = graph.run(
        Repository::new(),
        |query, _| panic!("unexpected question: {query:?}"),
        |repo, editor| integration_steps_to_segment_steps_for_editor(repo, editor, &steps),
    );
    assert_eq!(
        listed,
        Ok(vec![
            Step::Reference,
            Step::NewPick { id: id(8) },
            Step::NewPick { id: id(7) },
            Step::NewPick { id: id(5) },
        ])
    );
}

/// The parent of each commit, as pairs of child and parent; commits without an entry are roots.
type Parents = &'static [(u8, u8)];

/// 2 and 4 both stand on 1.
const APART: Parents = &[(2, 1), (4, 1), (1, 9)];

/// 4 stands on 2, which stands on 1.
const LINEAR: Parents = &[(4, 2), (2, 1), (1, 9)];

fn parent_in(parents: Parents, commit: u8) -> Option<u8> {
    parents.iter().find(|(child, _)| *child == commit).map(|(_, parent)| *parent)
}

/// A commit with those below it, from child to parent.
fn line_of(parents: Parents, commit: u8) -> Vec<u8> {
    let mut line = vec![commit];
    while let Some(parent) = parent_in(parents, line[line.len() - 1]) {
        line.push(parent);
    }
    line
}

/// Answers about commits whose trees have ids greater by ten. A merge in which both sides change
/// comes to tree 20, with a conflict if asked for.
fn answer_for_squash(parents: Parents, conflict: bool) -> impl Fn(Query, &mut Repository) {
    move |query, repo| match query {
        Query::Commit { id: commit } => repo.commits.push(CommitFact {
            id: commit,
            parents: parent_in(parents, commit.bytes[0]).map(id).into_iter().collect(),
            conflicted: false,
        }),
        Query::Tree { commit, kind } => {
            assert_eq!(kind, TreeKind::AutoResolution);
            let tree = id(commit.bytes[0] + 10);
            repo.trees.push(TreeFact { commit, kind, tree });
        }
        Query::OctopusBase { commits } => {
            assert!(commits.len() > 1);
            let base = line_of(parents, commits[0].bytes[0])
                .into_iter()
                .find(|n| commits.iter().all(|c| line_of(parents, c.bytes[0]).contains(n)))
                .expect("a merge base");
            repo.octopus_bases.push(OctopusBaseFact { commits, base: id(base) });
        }
        Query::MergedTree { merge, unresolved_if } => {
            assert_eq!(merge.options.file_favor, Some(FileFavor::Ours));
            let (tree, both) = if merge.ours == merge.base || merge.ours == merge.theirs {
                (merge.theirs, false)
            } else {
                (id(20), true)
            };
            let unresolved = if conflict && both {
                Some(ConflictEntries { paths: vec![b"file".to_vec()] })
            } else {
                None
            };
            let merged = MergedTree { tree, unresolved };
            repo.merged_trees.push(MergedTreeFact { merge, unresolved_if, merged });
        }
        Query::ConflictedTree { resolved, trees, entries } => {
            assert_eq!(resolved, id(20));
            assert_eq!((trees.base, trees.ours, trees.theirs), (id(11), id(12), id(14)));
            assert_eq!(entries.paths, vec![b"file".to_vec()]);
            repo.conflicted_tree_objects.push(ConflictedTreeFact {
                resolved,
                trees,
                entries,
                tree: id(30),
            });
        }
        Query::ConflictMarkers { message } => {
            let marked = [b"[conflict] ".as_slice(), &message].concat();
            repo.conflict_markers.push(ConflictMarkersFact { message, marked });
        }
        other => panic!("unexpected question: {other:?}"),
    }
}

fn drafts(graph: &Graph) -> Vec<(ObjectId, Vec<ObjectId>, ObjectId, String)> {
    graph
        .performed
        .iter()
        .filter_map(|command| match command {
            Command::NewCommit { draft, dates } => {
                assert_eq!(*dates, DateMode::CommitterUpdateAuthorKeep);
                Some((
                    draft.like,
                    draft.parents.clone(),
                    draft.tree,
                    String::from_utf8(draft.message.clone()).unwrap(),
                ))
            }
            _ => None,
        })
        .collect()
}

#[test]
fn a_squash_stands_on_the_shared_base() {
    // The graph has neither commit, so that they stay in the order in which they are named.
    let mut graph = Graph::branch(&[1]);
    let step = graph.run(Repository::new(), answer_for_squash(APART, false), |repo, editor| {
        squash_step_for_editor(repo, editor, &[id(2), id(4)], None)
    });
    assert_eq!(step, Ok(Step::NewPick { id: id(0xcc) }));
    assert_eq!(drafts(&graph), vec![(id(4), vec![id(1)], id(20), "commit 4".to_string())]);
}

#[test]
fn a_squash_of_known_commits_follows_the_graph() {
    // In the graph 4 stands on 2, so that 4 is the last whatever the order in which they are named.
    let mut graph = Graph::branch(&[4, 2, 1, 9]);
    let step = graph.run(Repository::new(), answer_for_squash(LINEAR, false), |repo, editor| {
        squash_step_for_editor(repo, editor, &[id(4), id(2)], Some("tog\u{e4}ther"))
    });
    assert_eq!(step, Ok(Step::NewPick { id: id(0xcc) }));
    assert_eq!(
        drafts(&graph),
        vec![(id(4), vec![id(1)], id(14), "tog\u{e4}ther".to_string())]
    );
    assert!(graph.performed.contains(&Command::OrderByParentage {
        selectors: vec![node(2), node(3)],
    }));
}

#[test]
fn a_squash_of_a_commit_and_its_child_keeps_both_changes() {
    // From the tree of 1 to the tree of 4 there are the changes of 2 and of 4.
    for named in [[id(2), id(4)], [id(4), id(2)]] {
        let mut graph = Graph::branch(&[4, 2, 1, 9]);
        graph
            .run(Repository::new(), answer_for_squash(LINEAR, false), |repo, editor| {
                squash_step_for_editor(repo, editor, &named, None)
            })
            .unwrap();
        assert_eq!(drafts(&graph), vec![(id(4), vec![id(1)], id(14), "commit 4".to_string())]);
    }
}

#[test]
fn a_squash_with_a_gap_stands_below_the_lowest_commit() {
    // 4 stands on 3 on 2 on 1, and 3 is not squashed.
    const GAP: Parents = &[(4, 3), (3, 2), (2, 1), (1, 9)];
    let mut graph = Graph::branch(&[1, 9]);
    graph
        .run(Repository::new(), answer_for_squash(GAP, false), |repo, editor| {
            squash_step_for_editor(repo, editor, &[id(2), id(4)], None)
        })
        .unwrap();
    assert_eq!(drafts(&graph), vec![(id(4), vec![id(1)], id(20), "commit 4".to_string())]);
}

#[test]
fn a_squash_of_separate_commits_stands_on_their_merge_base() {
    // 2 stands on 5 and 4 on 6, which both stand on 1, the merge base of 2 and 4.
    const FORK: Parents = &[(2, 5), (5, 1), (4, 6), (6, 1), (1, 9)];
    let mut repo = Repository::new();
    let parents = loop {
        match parents_of_squash(&repo, &[id(2), id(4)]) {
            Ok(parents) => break parents,
            Err(Stop::Unknown(query)) => answer_for_squash(FORK, false)(query, &mut repo),
            Err(other) => panic!("unexpected: {other:?}"),
        }
    };
    answer_for_squash(FORK, false)(
        Query::OctopusBase { commits: vec![id(2), id(4)] },
        &mut repo,
    );
    assert_eq!(repo.merge_base_octopus(&[id(2), id(4)]), Ok(id(1)));
    assert_eq!(parents, vec![id(1)]);
}

#[test]
fn a_squash_with_a_root_has_no_parent() {
    const ROOT: Parents = &[(4, 2)];
    let mut graph = Graph::branch(&[1]);
    graph
        .run(Repository::new(), answer_for_squash(ROOT, false), |repo, editor| {
            squash_step_for_editor(repo, editor, &[id(2), id(4)], None)
        })
        .unwrap();
    assert_eq!(drafts(&graph), vec![(id(4), vec![], id(14), "commit 4".to_string())]);
}

#[test]
fn commits_below_ranges_are_first_unselected_parents() {
    let below = |parents: Parents, commits: &[ObjectId]| {
        let mut repo = Repository::new();
        loop {
            match commits_below_ranges(&repo, commits) {
                Ok(below) => return below,
                Err(Stop::Unknown(query)) => answer_for_squash(parents, false)(query, &mut repo),
                Err(other) => panic!("unexpected: {other:?}"),
            }
        }
    };
    assert_eq!(below(LINEAR, &[id(2), id(4)]), vec![Some(id(1))]);
    assert_eq!(below(APART, &[id(4), id(2)]), vec![Some(id(1)), Some(id(1))]);
    assert_eq!(below(&[], &[id(2)]), vec![None]);
}

#[test]
fn a_squash_with_a_conflict_records_it() {
    let mut graph = Graph::branch(&[1]);
    graph
        .run(Repository::new(), answer_for_squash(APART, true), |repo, editor| {
            squash_step_for_editor(repo, editor, &[id(2), id(4)], Some("both"))
        })
        .unwrap();
    assert_eq!(
        drafts(&graph),
        vec![(id(4), vec![id(1)], id(30), "[conflict] both".to_string())]
    );
}

#[test]
fn a_draft_is_changed_only_as_a_whole() {
    let outcome = || MergeCommitChangesOutcome {
        tree_id: id(20),
        conflict: Some(MergeCommitChangesConflict {
            base_tree_id: id(11),
            ours_tree_id: id(12),
            theirs_tree_id: id(14),
            conflict_entries: ConflictEntries { paths: vec![b"file".to_vec()] },
        }),
    };
    let draft = || CommitDraft {
        like: id(4),
        parents: vec![id(1)],
        tree: id(5),
        message: b"before".to_vec(),
    };
    let mut repo = Repository::new();
    for _ in 0..2 {
        let mut commit = draft();
        let stop =
            apply_merge_commit_changes_outcome(&repo, &mut commit, outcome(), b"after".to_vec());
        assert_eq!(commit, draft());
        match stop {
            Err(Stop::Unknown(query)) => answer_for_squash(APART, true)(query, &mut repo),
            other => panic!("two answers are needed: {other:?}"),
        }
    }
    let mut commit = draft();
    apply_merge_commit_changes_outcome(&repo, &mut commit, outcome(), b"after".to_vec()).unwrap();
    assert_eq!(
        commit,
        CommitDraft { tree: id(30), message: b"[conflict] after".to_vec(), ..draft() }
    );
}

#[test]
fn a_squash_needs_two_commits() {
    let mut graph = Graph::branch(&[2, 1]);
    let steps = vec![InteractiveIntegrationStep::Squash { commits: vec![id(2)], message: None }];
    assert_eq!(graph.integrate(steps, 1), Err(Failure::SquashTooSmall));
    assert_eq!(
        Failure::SquashTooSmall.message(),
        "Squash step must have at least two commits"
    );
    assert!(!graph.rebased);
}

#[test]
fn a_squash_takes_the_place_of_its_commits() {
    let mut graph = Graph::branch(&[4, 2, 1, 9]);
    let integration = InteractiveIntegration {
        steps: vec![
            InteractiveIntegrationStep::Squash { commits: vec![id(2), id(4)], message: None },
            pick_upstream(7),
        ],
        merge_base: id(1),
    };
    graph
        .run(Repository::new(), answer_for_squash(LINEAR, false), |repo, editor| {
            integrate_branch_with_steps(repo, editor, b"refs/heads/A", &integration)
        })
        .unwrap();
    assert_eq!(graph.chain(), vec![7, 0xcc, 1, 9]);
    assert_eq!(drafts(&graph), vec![(id(4), vec![id(1)], id(14), "commit 4".to_string())]);
}

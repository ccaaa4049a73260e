//! What has been read of a repository, and the questions that are still open.
//!
//! The operations of this crate read a [`Repository`]: a list of answers that were obtained from
//! the repository on disk. Where an answer is missing they stop with the [`Query`] that asks for
//! it. Whoever runs them obtains the answer, adds it, and runs them again.
use crate::bytes::{byte_strings, copy_bytes, copy_ids, same_bytes, same_ids};
use crate::facts::{find_latest, latest, Fact};
use crate::merge_options::{TreatAsUnresolved, TreeMerge};
use crate::object_id::ObjectId;
use crate::signature::{Actor, ActorView, Clock};
use crate::stop::{Stop, StopView};
use crate::worktree::{StatusItem, WorktreeFile};
use vstd::prelude::*;

verus! {

/// Which tree of a commit is meant. A commit without conflicts has one tree, which answers for
/// every kind.
#[derive(Clone, Copy, Debug, PartialEq, Eq, Structural)]
pub enum TreeKind {
    /// The tree that shows the conflict resolved automatically.
    AutoResolution,
    /// The tree that was the base when the conflict arose.
    Base,
    /// The tree of the side that was being applied when the conflict arose.
    Theirs,
}

/// The paths that remained conflicted after a merge.
#[derive(Debug, PartialEq, Eq)]
pub struct ConflictEntries {
    pub paths: Vec<Vec<u8>>,
}

impl View for ConflictEntries {
    type V = Seq<Seq<u8>>;

    open spec fn view(&self) -> Seq<Seq<u8>> {
        byte_strings(self.paths@)
    }
}

impl ConflictEntries {
    /// Whether any path is conflicted.
    pub fn has_entries(&self) -> (r: bool)
        ensures
            r == (self@.len() > 0),
    {
        self.paths.len() > 0
    }

    /// The same paths once more.
    pub fn duplicate(&self) -> (r: ConflictEntries)
        ensures
            r@ == self@,
    {
        let mut paths: Vec<Vec<u8>> = Vec::new();
        let mut i: usize = 0;
        while i < self.paths.len()
            invariant
                i <= self.paths.len(),
                byte_strings(paths@) =~= self@.take(i as int),
            decreases self.paths.len() - i,
        {
            let ghost before = paths@;
            let path = copy_bytes(self.paths[i].as_slice());
            paths.push(path);
            assert(byte_strings(paths@) =~= byte_strings(before).push(path@));
            assert(self@.take(i + 1) =~= self@.take(i as int).push(self@[i as int]));
            i = i + 1;
        }
        assert(self@.take(i as int) =~= self@);
        ConflictEntries { paths }
    }

    /// Whether two lists hold the same paths in the same order.
    pub fn same(&self, other: &ConflictEntries) -> (r: bool)
        ensures
            r == (self@ == other@),
    {
        if self.paths.len() != other.paths.len() {
            assert(self@.len() != other@.len());
            return false;
        }
        let mut i: usize = 0;
        while i < self.paths.len()
            invariant
                i <= self.paths.len(),
                self.paths.len() == other.paths.len(),
                forall|k: int| 0 <= k < i ==> self@[k] == other@[k],
            decreases self.paths.len() - i,
        {
            if !same_bytes(self.paths[i].as_slice(), other.paths[i].as_slice()) {
                assert(self@[i as int] != other@[i as int]);
                return false;
            }
            assert(self@[i as int] == other@[i as int]);
            i = i + 1;
        }
        assert(self@ =~= other@);
        true
    }
}

/// The trees from which a conflict arose.
#[derive(Clone, Copy, Debug, PartialEq, Eq)]
pub struct ConflictedTrees {
    pub base: ObjectId,
    pub ours: ObjectId,
    pub theirs: ObjectId,
}

impl ConflictedTrees {
    /// Whether two conflicts arose from the same trees.
    pub fn same(&self, other: &ConflictedTrees) -> (r: bool)
        ensures
            r == (*self == *other),
    {
        self.base.same(&other.base) && self.ours.same(&other.ours)
            && self.theirs.same(&other.theirs)
    }
}

/// A commit's parents, and whether it records a conflict.
pub struct CommitFact {
    pub id: ObjectId,
    pub parents: Vec<ObjectId>,
    pub conflicted: bool,
}

/// A tree of a commit.
pub struct TreeFact {
    pub commit: ObjectId,
    pub kind: TreeKind,
    pub tree: ObjectId,
}

/// The trees of the conflict that a commit records, if it records them.
pub struct ConflictedTreesFact {
    pub commit: ObjectId,
    pub trees: Option<ConflictedTrees>,
}

/// The conflicted paths that a commit records, if it records them.
pub struct ConflictEntriesFact {
    pub commit: ObjectId,
    pub entries: Option<ConflictEntries>,
}

/// The merge base that several commits share.
pub struct OctopusBaseFact {
    pub commits: Vec<ObjectId>,
    pub base: ObjectId,
}

/// The outcome of a tree merge.
pub struct MergedTree {
    /// The merged tree, with conflicts resolved automatically.
    pub tree: ObjectId,
    /// The conflicted paths if conflicts count as unresolved, or `None` if the merge was clean.
    pub unresolved: Option<ConflictEntries>,
}

/// A [`MergedTree`] with its paths as sequences.
pub struct MergedTreeView {
    pub tree: ObjectId,
    pub unresolved: Option<Seq<Seq<u8>>>,
}

impl View for MergedTree {
    type V = MergedTreeView;

    open spec fn view(&self) -> MergedTreeView {
        MergedTreeView {
            tree: self.tree,
            unresolved: match self.unresolved {
                Some(entries) => Some(entries@),
                None => None,
            },
        }
    }
}

/// The outcome of a tree merge whose tree was written.
pub struct MergedTreeFact {
    pub merge: TreeMerge,
    pub unresolved_if: TreatAsUnresolved,
    pub merged: MergedTree,
}

/// Whether a tree merge has no conflict that counts as unresolved.
pub struct CleanMergeFact {
    pub merge: TreeMerge,
    pub unresolved_if: TreatAsUnresolved,
    pub clean: bool,
}

/// The tree that stores a conflict: the resolved tree together with the trees and the paths of
/// the conflict.
pub struct ConflictedTreeFact {
    pub resolved: ObjectId,
    pub trees: ConflictedTrees,
    pub entries: ConflictEntries,
    pub tree: ObjectId,
}

/// A commit message with the marks of a conflicted commit added.
pub struct ConflictMarkersFact {
    pub message: Vec<u8>,
    pub marked: Vec<u8>,
}

/// The commit at the tip of a reference, or `None` if there is no such reference.
pub struct ReferenceFact {
    pub name: Vec<u8>,
    pub tip: Option<ObjectId>,
}

/// The reference that a branch tracks, or `None` if it tracks none.
pub struct TrackingFact {
    pub name: Vec<u8>,
    pub tracking: Option<Vec<u8>>,
}

/// A merge base of two commits, or `None` if they share no history.
pub struct MergeBaseFact {
    pub one: ObjectId,
    pub two: ObjectId,
    pub base: Option<ObjectId>,
}

/// The commits from a tip along first parents that are not reachable from a hidden commit.
pub struct FirstParentsFact {
    pub tip: ObjectId,
    pub hidden: ObjectId,
    pub commits: Vec<ObjectId>,
}

/// The change that a commit is a version of.
pub struct ChangeIdFact {
    pub commit: ObjectId,
    pub change_id: String,
}

/// What is stored for a file of the worktree, or `None` if there is nothing to store.
pub struct WorktreeFileFact {
    pub path: Vec<u8>,
    pub file: Option<WorktreeFile>,
}

/// A question about a repository.
#[derive(Debug, PartialEq, Eq)]
pub enum Query {
    /// A commit's parents, and whether it records a conflict.
    Commit { id: ObjectId },
    /// A tree of a commit.
    Tree { commit: ObjectId, kind: TreeKind },
    /// The trees of the conflict that a commit records.
    ConflictedTrees { commit: ObjectId },
    /// The conflicted paths that a commit records.
    ConflictEntries { commit: ObjectId },
    /// The merge base that several commits share.
    OctopusBase { commits: Vec<ObjectId> },
    /// The outcome of a tree merge whose tree is to be written.
    MergedTree { merge: TreeMerge, unresolved_if: TreatAsUnresolved },
    /// Whether a tree merge has no conflict.
    CleanMerge { merge: TreeMerge, unresolved_if: TreatAsUnresolved },
    /// The tree that stores a conflict.
    ConflictedTree { resolved: ObjectId, trees: ConflictedTrees, entries: ConflictEntries },
    /// A commit message with the marks of a conflicted commit added.
    ConflictMarkers { message: Vec<u8> },
    /// The commit at the tip of a reference.
    Reference { name: Vec<u8> },
    /// The reference that a branch tracks.
    TrackingBranch { name: Vec<u8> },
    /// A merge base of two commits.
    MergeBase { one: ObjectId, two: ObjectId },
    /// The commits from a tip along first parents that are not reachable from a hidden commit.
    FirstParents { tip: ObjectId, hidden: ObjectId },
    /// The change that a commit is a version of.
    ChangeId { commit: ObjectId },
    /// The differences between `HEAD`, the index and the worktree.
    Status,
    /// What is stored for a file of the worktree.
    WorktreeFile { path: Vec<u8> },
    /// The configured author.
    Author,
    /// Whether the configuration asks for GitButler as committer.
    GitbutlerCommitter,
    /// The configured committer.
    Committer,
    /// The date that the environment variable `GIT_COMMITTER_DATE` sets for committers.
    CommitterDate,
    /// The current time.
    Clock,
}

/// A [`Query`] with its lists as sequences.
pub enum QueryView {
    Commit { id: ObjectId },
    Tree { commit: ObjectId, kind: TreeKind },
    ConflictedTrees { commit: ObjectId },
    ConflictEntries { commit: ObjectId },
    OctopusBase { commits: Seq<ObjectId> },
    MergedTree { merge: TreeMerge, unresolved_if: TreatAsUnresolved },
    CleanMerge { merge: TreeMerge, unresolved_if: TreatAsUnresolved },
    ConflictedTree { resolved: ObjectId, trees: ConflictedTrees, entries: Seq<Seq<u8>> },
    ConflictMarkers { message: Seq<u8> },
    Reference { name: Seq<u8> },
    TrackingBranch { name: Seq<u8> },
    MergeBase { one: ObjectId, two: ObjectId },
    FirstParents { tip: ObjectId, hidden: ObjectId },
    ChangeId { commit: ObjectId },
    Status,
    WorktreeFile { path: Seq<u8> },
    Author,
    GitbutlerCommitter,
    Committer,
    CommitterDate,
    Clock,
}

impl View for Query {
    type V = QueryView;

    open spec fn view(&self) -> QueryView {
        match *self {
            Query::Commit { id } => QueryView::Commit { id },
            Query::Tree { commit, kind } => QueryView::Tree { commit, kind },
            Query::ConflictedTrees { commit } => QueryView::ConflictedTrees { commit },
            Query::ConflictEntries { commit } => QueryView::ConflictEntries { commit },
            Query::OctopusBase { commits } => QueryView::OctopusBase { commits: commits@ },
            Query::MergedTree { merge, unresolved_if } =>
                QueryView::MergedTree { merge, unresolved_if },
            Query::CleanMerge { merge, unresolved_if } =>
                QueryView::CleanMerge { merge, unresolved_if },
            Query::ConflictedTree { resolved, trees, entries } =>
                QueryView::ConflictedTree { resolved, trees, entries: entries@ },
            Query::ConflictMarkers { message } =>
                QueryView::ConflictMarkers { message: message@ },
            Query::Reference { name } => QueryView::Reference { name: name@ },
            Query::TrackingBranch { name } => QueryView::TrackingBranch { name: name@ },
            Query::MergeBase { one, two } => QueryView::MergeBase { one, two },
            Query::FirstParents { tip, hidden } => QueryView::FirstParents { tip, hidden },
            Query::ChangeId { commit } => QueryView::ChangeId { commit },
            Query::Status => QueryView::Status,
            Query::WorktreeFile { path } => QueryView::WorktreeFile { path: path@ },
            Query::Author => QueryView::Author,
            Query::GitbutlerCommitter => QueryView::GitbutlerCommitter,
            Query::Committer => QueryView::Committer,
            Query::CommitterDate => QueryView::CommitterDate,
            Query::Clock => QueryView::Clock,
        }
    }
}

impl Fact for CommitFact {
    type Key = ObjectId;

    type Probe = ObjectId;

    open spec fn key(&self) -> ObjectId {
        self.id
    }

    open spec fn asked(probe: &ObjectId) -> ObjectId {
        *probe
    }

    fn answers(&self, probe: &ObjectId) -> bool {
        self.id.same(probe)
    }
}

impl Fact for TreeFact {
    type Key = (ObjectId, TreeKind);

    type Probe = (ObjectId, TreeKind);

    open spec fn key(&self) -> (ObjectId, TreeKind) {
        (self.commit, self.kind)
    }

    open spec fn asked(probe: &(ObjectId, TreeKind)) -> (ObjectId, TreeKind) {
        *probe
    }

    fn answers(&self, probe: &(ObjectId, TreeKind)) -> bool {
        self.commit.same(&probe.0) && self.kind == probe.1
    }
}

impl Fact for ConflictedTreesFact {
    type Key = ObjectId;

    type Probe = ObjectId;

    open spec fn key(&self) -> ObjectId {
        self.commit
    }

    open spec fn asked(probe: &ObjectId) -> ObjectId {
        *probe
    }

    fn answers(&self, probe: &ObjectId) -> bool {
        self.commit.same(probe)
    }
}

impl Fact for ConflictEntriesFact {
    type Key = ObjectId;

    type Probe = ObjectId;

    open spec fn key(&self) -> ObjectId {
        self.commit
    }

    open spec fn asked(probe: &ObjectId) -> ObjectId {
        *probe
    }

    fn answers(&self, probe: &ObjectId) -> bool {
        self.commit.same(probe)
    }
}

impl Fact for OctopusBaseFact {
    type Key = Seq<ObjectId>;

    type Probe = [ObjectId];

    open spec fn key(&self) -> Seq<ObjectId> {
        self.commits@
    }

    open spec fn asked(probe: &[ObjectId]) -> Seq<ObjectId> {
        probe@
    }

    fn answers(&self, probe: &[ObjectId]) -> bool {
        same_ids(self.commits.as_slice(), probe)
    }
}

impl Fact for MergedTreeFact {
    type Key = (TreeMerge, TreatAsUnresolved);

    type Probe = (TreeMerge, TreatAsUnresolved);

    open spec fn key(&self) -> (TreeMerge, TreatAsUnresolved) {
        (self.merge, self.unresolved_if)
    }

    open spec fn asked(probe: &(TreeMerge, TreatAsUnresolved)) -> (TreeMerge, TreatAsUnresolved) {
        *probe
    }

    fn answers(&self, probe: &(TreeMerge, TreatAsUnresolved)) -> bool {
        self.merge.same(&probe.0) && self.unresolved_if == probe.1
    }
}

impl Fact for CleanMergeFact {
    type Key = (TreeMerge, TreatAsUnresolved);

    type Probe = (TreeMerge, TreatAsUnresolved);

    open spec fn key(&self) -> (TreeMerge, TreatAsUnresolved) {
        (self.merge, self.unresolved_if)
    }

    open spec fn asked(probe: &(TreeMerge, TreatAsUnresolved)) -> (TreeMerge, TreatAsUnresolved) {
        *probe
    }

    fn answers(&self, probe: &(TreeMerge, TreatAsUnresolved)) -> bool {
        self.merge.same(&probe.0) && self.unresolved_if == probe.1
    }
}

impl Fact for ConflictedTreeFact {
    type Key = (ObjectId, ConflictedTrees, Seq<Seq<u8>>);

    type Probe = (ObjectId, ConflictedTrees, ConflictEntries);

    open spec fn key(&self) -> (ObjectId, ConflictedTrees, Seq<Seq<u8>>) {
        (self.resolved, self.trees, self.entries@)
    }

    open spec fn asked(probe: &(ObjectId, ConflictedTrees, ConflictEntries)) -> (
        ObjectId,
        ConflictedTrees,
        Seq<Seq<u8>>,
    ) {
        (probe.0, probe.1, probe.2@)
    }

    fn answers(&self, probe: &(ObjectId, ConflictedTrees, ConflictEntries)) -> bool {
        self.resolved.same(&probe.0) && self.trees.same(&probe.1) && self.entries.same(&probe.2)
    }
}

impl Fact for ConflictMarkersFact {
    type Key = Seq<u8>;

    type Probe = [u8];

    open spec fn key(&self) -> Seq<u8> {
        self.message@
    }

    open spec fn asked(probe: &[u8]) -> Seq<u8> {
        probe@
    }

    fn answers(&self, probe: &[u8]) -> bool {
        same_bytes(self.message.as_slice(), probe)
    }
}

impl Fact for ReferenceFact {
    type Key = Seq<u8>;

    type Probe = [u8];

    open spec fn key(&self) -> Seq<u8> {
        self.name@
    }

    open spec fn asked(probe: &[u8]) -> Seq<u8> {
        probe@
    }

    fn answers(&self, probe: &[u8]) -> bool {
        same_bytes(self.name.as_slice(), probe)
    }
}

impl Fact for TrackingFact {
    type Key = Seq<u8>;

    type Probe = [u8];

    open spec fn key(&self) -> Seq<u8> {
        self.name@
    }

    open spec fn asked(probe: &[u8]) -> Seq<u8> {
        probe@
    }

    fn answers(&self, probe: &[u8]) -> bool {
        same_bytes(self.name.as_slice(), probe)
    }
}

impl Fact for MergeBaseFact {
    type Key = (ObjectId, ObjectId);

    type Probe = (ObjectId, ObjectId);

    open spec fn key(&self) -> (ObjectId, ObjectId) {
        (self.one, self.two)
    }

    open spec fn asked(probe: &(ObjectId, ObjectId)) -> (ObjectId, ObjectId) {
        *probe
    }

    fn answers(&self, probe: &(ObjectId, ObjectId)) -> bool {
        self.one.same(&probe.0) && self.two.same(&probe.1)
    }
}

impl Fact for FirstParentsFact {
    type Key = (ObjectId, ObjectId);

    type Probe = (ObjectId, ObjectId);

    open spec fn key(&self) -> (ObjectId, ObjectId) {
        (self.tip, self.hidden)
    }

    open spec fn asked(probe: &(ObjectId, ObjectId)) -> (ObjectId, ObjectId) {
        *probe
    }

    fn answers(&self, probe: &(ObjectId, ObjectId)) -> bool {
        self.tip.same(&probe.0) && self.hidden.same(&probe.1)
    }
}

impl Fact for ChangeIdFact {
    type Key = ObjectId;

    type Probe = ObjectId;

    open spec fn key(&self) -> ObjectId {
        self.commit
    }

    open spec fn asked(probe: &ObjectId) -> ObjectId {
        *probe
    }

    fn answers(&self, probe: &ObjectId) -> bool {
        self.commit.same(probe)
    }
}

impl Fact for WorktreeFileFact {
    type Key = Seq<u8>;

    type Probe = [u8];

    open spec fn key(&self) -> Seq<u8> {
        self.path@
    }

    open spec fn asked(probe: &[u8]) -> Seq<u8> {
        probe@
    }

    fn answers(&self, probe: &[u8]) -> bool {
        same_bytes(self.path.as_slice(), probe)
    }
}

/// What has been read of a repository.
///
/// Of two answers to the same question the one further back in its list counts.
pub struct Repository {
    pub commits: Vec<CommitFact>,
    pub trees: Vec<TreeFact>,
    pub conflicted_trees: Vec<ConflictedTreesFact>,
    pub conflict_entries: Vec<ConflictEntriesFact>,
    pub octopus_bases: Vec<OctopusBaseFact>,
    pub merged_trees: Vec<MergedTreeFact>,
    pub clean_merges: Vec<CleanMergeFact>,
    pub conflicted_tree_objects: Vec<ConflictedTreeFact>,
    pub conflict_markers: Vec<ConflictMarkersFact>,
    pub references: Vec<ReferenceFact>,
    pub tracking_branches: Vec<TrackingFact>,
    pub merge_bases: Vec<MergeBaseFact>,
    pub first_parents: Vec<FirstParentsFact>,
    pub change_ids: Vec<ChangeIdFact>,
    pub status: Option<Vec<StatusItem>>,
    pub worktree_files: Vec<WorktreeFileFact>,
    /// The author, if one is configured.
    pub author: Option<Option<Actor>>,
    /// Whether GitButler is to be the committer, if that is configured.
    pub gitbutler_committer: Option<Option<bool>>,
    /// The committer, if one is configured.
    pub committer: Option<Option<Actor>>,
    /// The date that the environment sets for committers, if it sets one.
    pub committer_date: Option<Option<String>>,
    pub clock: Option<Clock>,
}

impl Repository {
    /// A repository of which nothing has been read.
    pub fn new() -> (r: Repository)
        ensures
            r.is_unread(),
    {
        Repository {
            commits: Vec::new(),
            trees: Vec::new(),
            conflicted_trees: Vec::new(),
            conflict_entries: Vec::new(),
            octopus_bases: Vec::new(),
            merged_trees: Vec::new(),
            clean_merges: Vec::new(),
            conflicted_tree_objects: Vec::new(),
            conflict_markers: Vec::new(),
            references: Vec::new(),
            tracking_branches: Vec::new(),
            merge_bases: Vec::new(),
            first_parents: Vec::new(),
            change_ids: Vec::new(),
            status: None,
            worktree_files: Vec::new(),
            author: None,
            gitbutler_committer: None,
            committer: None,
            committer_date: None,
            clock: None,
        }
    }

    /// Whether nothing has been read.
    pub open spec fn is_unread(&self) -> bool {
        &&& self.commits@.len() == 0
        &&& self.trees@.len() == 0
        &&& self.conflicted_trees@.len() == 0
        &&& self.conflict_entries@.len() == 0
        &&& self.octopus_bases@.len() == 0
        &&& self.merged_trees@.len() == 0
        &&& self.clean_merges@.len() == 0
        &&& self.conflicted_tree_objects@.len() == 0
        &&& self.conflict_markers@.len() == 0
        &&& self.references@.len() == 0
        &&& self.tracking_branches@.len() == 0
        &&& self.merge_bases@.len() == 0
        &&& self.first_parents@.len() == 0
        &&& self.change_ids@.len() == 0
        &&& self.status is None
        &&& self.worktree_files@.len() == 0
        &&& self.author is None
        &&& self.gitbutler_committer is None
        &&& self.committer is None
        &&& self.committer_date is None
        &&& self.clock is None
    }

    /// What is known of a commit.
    pub open spec fn spec_commit(&self, id: ObjectId) -> Result<CommitFact, StopView> {
        match latest(self.commits@, id) {
            Some(fact) => Ok(fact),
            None => Err(StopView::Unknown(QueryView::Commit { id })),
        }
    }

    /// A tree of a commit.
    pub open spec fn spec_tree(&self, commit: ObjectId, kind: TreeKind) -> Result<
        ObjectId,
        StopView,
    > {
        match latest(self.trees@, (commit, kind)) {
            Some(fact) => Ok(fact.tree),
            None => Err(StopView::Unknown(QueryView::Tree { commit, kind })),
        }
    }

    /// The trees of the conflict that a commit records.
    pub open spec fn spec_conflicted_trees(&self, commit: ObjectId) -> Result<
        Option<ConflictedTrees>,
        StopView,
    > {
        match latest(self.conflicted_trees@, commit) {
            Some(fact) => Ok(fact.trees),
            None => Err(StopView::Unknown(QueryView::ConflictedTrees { commit })),
        }
    }

    /// The conflicted paths that a commit records.
    pub open spec fn spec_conflict_entries(&self, commit: ObjectId) -> Result<
        Option<Seq<Seq<u8>>>,
        StopView,
    > {
        match latest(self.conflict_entries@, commit) {
            Some(fact) => Ok(
                match fact.entries {
                    Some(entries) => Some(entries@),
                    None => None,
                },
            ),
            None => Err(StopView::Unknown(QueryView::ConflictEntries { commit })),
        }
    }

    /// The merge base that several commits share.
    pub open spec fn spec_octopus_base(&self, commits: Seq<ObjectId>) -> Result<
        ObjectId,
        StopView,
    > {
        match latest(self.octopus_bases@, commits) {
            Some(fact) => Ok(fact.base),
            None => Err(StopView::Unknown(QueryView::OctopusBase { commits })),
        }
    }

    /// The outcome of a tree merge.
    pub open spec fn spec_merged_tree(
        &self,
        merge: TreeMerge,
        unresolved_if: TreatAsUnresolved,
    ) -> Result<MergedTreeView, StopView> {
        match latest(self.merged_trees@, (merge, unresolved_if)) {
            Some(fact) => Ok(fact.merged@),
            None => Err(StopView::Unknown(QueryView::MergedTree { merge, unresolved_if })),
        }
    }

    /// Whether a tree merge has no conflict.
    pub open spec fn spec_clean_merge(
        &self,
        merge: TreeMerge,
        unresolved_if: TreatAsUnresolved,
    ) -> Result<bool, StopView> {
        match latest(self.clean_merges@, (merge, unresolved_if)) {
            Some(fact) => Ok(fact.clean),
            None => Err(StopView::Unknown(QueryView::CleanMerge { merge, unresolved_if })),
        }
    }

    /// The differences between `HEAD`, the index and the worktree.
    pub open spec fn spec_status(&self) -> Result<Seq<StatusItem>, StopView> {
        match self.status {
            Some(items) => Ok(items@),
            None => Err(StopView::Unknown(QueryView::Status)),
        }
    }

    /// What is stored for a file of the worktree.
    pub open spec fn spec_worktree_file(&self, path: Seq<u8>) -> Result<
        Option<WorktreeFile>,
        StopView,
    > {
        match latest(self.worktree_files@, path) {
            Some(fact) => Ok(fact.file),
            None => Err(StopView::Unknown(QueryView::WorktreeFile { path })),
        }
    }

    /// The tree that stores a conflict.
    pub open spec fn spec_conflicted_tree(
        &self,
        resolved: ObjectId,
        trees: ConflictedTrees,
        entries: Seq<Seq<u8>>,
    ) -> Result<ObjectId, StopView> {
        match latest(self.conflicted_tree_objects@, (resolved, trees, entries)) {
            Some(fact) => Ok(fact.tree),
            None => Err(
                StopView::Unknown(QueryView::ConflictedTree { resolved, trees, entries }),
            ),
        }
    }

    /// A commit message with the marks of a conflicted commit added.
    pub open spec fn spec_conflict_markers(&self, message: Seq<u8>) -> Result<Seq<u8>, StopView> {
        match latest(self.conflict_markers@, message) {
            Some(fact) => Ok(fact.marked@),
            None => Err(StopView::Unknown(QueryView::ConflictMarkers { message })),
        }
    }

    /// The commit at the tip of a reference.
    pub open spec fn spec_reference(&self, name: Seq<u8>) -> Result<Option<ObjectId>, StopView> {
        match latest(self.references@, name) {
            Some(fact) => Ok(fact.tip),
            None => Err(StopView::Unknown(QueryView::Reference { name })),
        }
    }

    /// The reference that a branch tracks.
    pub open spec fn spec_tracking_branch(&self, name: Seq<u8>) -> Result<
        Option<Seq<u8>>,
        StopView,
    > {
        match latest(self.tracking_branches@, name) {
            Some(fact) => Ok(
                match fact.tracking {
                    Some(tracking) => Some(tracking@),
                    None => None,
                },
            ),
            None => Err(StopView::Unknown(QueryView::TrackingBranch { name })),
        }
    }

    /// A merge base of two commits.
    pub open spec fn spec_merge_base(&self, one: ObjectId, two: ObjectId) -> Result<
        Option<ObjectId>,
        StopView,
    > {
        match latest(self.merge_bases@, (one, two)) {
            Some(fact) => Ok(fact.base),
            None => Err(StopView::Unknown(QueryView::MergeBase { one, two })),
        }
    }

    /// The commits from a tip along first parents that are not reachable from a hidden commit.
    pub open spec fn spec_first_parents(&self, tip: ObjectId, hidden: ObjectId) -> Result<
        Seq<ObjectId>,
        StopView,
    > {
        match latest(self.first_parents@, (tip, hidden)) {
            Some(fact) => Ok(fact.commits@),
            None => Err(StopView::Unknown(QueryView::FirstParents { tip, hidden })),
        }
    }

    /// The change that a commit is a version of.
    pub open spec fn spec_change_id(&self, commit: ObjectId) -> Result<Seq<char>, StopView> {
        match latest(self.change_ids@, commit) {
            Some(fact) => Ok(fact.change_id@),
            None => Err(StopView::Unknown(QueryView::ChangeId { commit })),
        }
    }

    /// The configured author.
    pub open spec fn spec_author(&self) -> Result<Option<ActorView>, StopView> {
        match self.author {
            Some(author) => Ok(
                match author {
                    Some(actor) => Some(actor@),
                    None => None,
                },
            ),
            None => Err(StopView::Unknown(QueryView::Author)),
        }
    }

    /// What the configuration says on GitButler as committer.
    pub open spec fn spec_gitbutler_committer(&self) -> Result<Option<bool>, StopView> {
        match self.gitbutler_committer {
            Some(flag) => Ok(flag),
            None => Err(StopView::Unknown(QueryView::GitbutlerCommitter)),
        }
    }

    /// The configured committer.
    pub open spec fn spec_committer(&self) -> Result<Option<ActorView>, StopView> {
        match self.committer {
            Some(committer) => Ok(
                match committer {
                    Some(actor) => Some(actor@),
                    None => None,
                },
            ),
            None => Err(StopView::Unknown(QueryView::Committer)),
        }
    }

    /// The date that the environment sets for committers.
    pub open spec fn spec_committer_date(&self) -> Result<Option<Seq<char>>, StopView> {
        match self.committer_date {
            Some(date) => Ok(
                match date {
                    Some(text) => Some(text@),
                    None => None,
                },
            ),
            None => Err(StopView::Unknown(QueryView::CommitterDate)),
        }
    }

    /// The current time.
    pub open spec fn spec_clock(&self) -> Result<Clock, StopView> {
        match self.clock {
            Some(clock) => Ok(clock),
            None => Err(StopView::Unknown(QueryView::Clock)),
        }
    }

    /// Reads what is known of a commit.
    pub fn commit(&self, id: ObjectId) -> (r: Result<&CommitFact, Stop>)
        ensures
            match self.spec_commit(id) {
                Ok(fact) => r == Ok::<&CommitFact, Stop>(&fact),
                Err(stop) => r is Err && r->Err_0@ == stop,
            },
    {
        match find_latest(&self.commits, &id) {
            Some(fact) => Ok(fact),
            None => Err(Stop::Unknown(Query::Commit { id })),
        }
    }

    /// Reads a tree of a commit.
    pub fn tree(&self, commit: ObjectId, kind: TreeKind) -> (r: Result<ObjectId, Stop>)
        ensures
            match self.spec_tree(commit, kind) {
                Ok(tree) => r == Ok::<ObjectId, Stop>(tree),
                Err(stop) => r is Err && r->Err_0@ == stop,
            },
    {
        match find_latest(&self.trees, &(commit, kind)) {
            Some(fact) => Ok(fact.tree),
            None => Err(Stop::Unknown(Query::Tree { commit, kind })),
        }
    }

    /// Reads the trees of the conflict that a commit records.
    pub fn conflicted_trees_of(&self, commit: ObjectId) -> (r: Result<
        Option<ConflictedTrees>,
        Stop,
    >)
        ensures
            match self.spec_conflicted_trees(commit) {
                Ok(trees) => r == Ok::<Option<ConflictedTrees>, Stop>(trees),
                Err(stop) => r is Err && r->Err_0@ == stop,
            },
    {
        match find_latest(&self.conflicted_trees, &commit) {
            Some(fact) => Ok(fact.trees),
            None => Err(Stop::Unknown(Query::ConflictedTrees { commit })),
        }
    }

    /// Reads the conflicted paths that a commit records.
    pub fn conflict_entries_of(&self, commit: ObjectId) -> (r: Result<
        Option<ConflictEntries>,
        Stop,
    >)
        ensures
            match self.spec_conflict_entries(commit) {
                Ok(Some(entries)) => r matches Ok(Some(found)) && found@ == entries,
                Ok(None) => r matches Ok(None),
                Err(stop) => r is Err && r->Err_0@ == stop,
            },
    {
        match find_latest(&self.conflict_entries, &commit) {
            Some(fact) => match &fact.entries {
                Some(entries) => Ok(Some(entries.duplicate())),
                None => Ok(None),
            },
            None => Err(Stop::Unknown(Query::ConflictEntries { commit })),
        }
    }

    /// Reads the merge base that several commits share.
    pub fn merge_base_octopus(&self, commits: &[ObjectId]) -> (r: Result<ObjectId, Stop>)
        ensures
            match self.spec_octopus_base(commits@) {
                Ok(base) => r == Ok::<ObjectId, Stop>(base),
                Err(stop) => r is Err && r->Err_0@ == stop,
            },
    {
        match find_latest(&self.octopus_bases, commits) {
            Some(fact) => Ok(fact.base),
            None => Err(Stop::Unknown(Query::OctopusBase { commits: copy_ids(commits) })),
        }
    }

    /// Reads the outcome of a tree merge.
    pub fn merge_trees(&self, merge: TreeMerge, unresolved_if: TreatAsUnresolved) -> (r: Result<
        &MergedTree,
        Stop,
    >)
        ensures
            match self.spec_merged_tree(merge, unresolved_if) {
                Ok(merged) => r is Ok && r->Ok_0@ == merged,
                Err(stop) => r is Err && r->Err_0@ == stop,
            },
    {
        match find_latest(&self.merged_trees, &(merge, unresolved_if)) {
            Some(fact) => Ok(&fact.merged),
            None => Err(Stop::Unknown(Query::MergedTree { merge, unresolved_if })),
        }
    }

    /// Reads whether a tree merge has no conflict.
    pub fn is_clean_merge(&self, merge: TreeMerge, unresolved_if: TreatAsUnresolved) -> (r: Result<
        bool,
        Stop,
    >)
        ensures
            match self.spec_clean_merge(merge, unresolved_if) {
                Ok(clean) => r == Ok::<bool, Stop>(clean),
                Err(stop) => r is Err && r->Err_0@ == stop,
            },
    {
        match find_latest(&self.clean_merges, &(merge, unresolved_if)) {
            Some(fact) => Ok(fact.clean),
            None => Err(Stop::Unknown(Query::CleanMerge { merge, unresolved_if })),
        }
    }

    /// Reads the differences between `HEAD`, the index and the worktree.
    pub fn status_items(&self) -> (r: Result<&Vec<StatusItem>, Stop>)
        ensures
            match self.spec_status() {
                Ok(items) => r is Ok && r->Ok_0@ == items,
                Err(stop) => r is Err && r->Err_0@ == stop,
            },
    {
        match &self.status {
            Some(items) => Ok(items),
            None => Err(Stop::Unknown(Query::Status)),
        }
    }

    /// Reads what is stored for a file of the worktree.
    pub fn worktree_file_to_object(&self, path: &[u8]) -> (r: Result<Option<WorktreeFile>, Stop>)
        ensures
            match self.spec_worktree_file(path@) {
                Ok(file) => r == Ok::<Option<WorktreeFile>, Stop>(file),
                Err(stop) => r is Err && r->Err_0@ == stop,
            },
    {
        match find_latest(&self.worktree_files, path) {
            Some(fact) => Ok(fact.file),
            None => Err(Stop::Unknown(Query::WorktreeFile { path: copy_bytes(path) })),
        }
    }

    /// Reads the tree that stores a conflict.
    pub fn write_conflicted_tree(
        &self,
        resolved: ObjectId,
        trees: ConflictedTrees,
        entries: ConflictEntries,
    ) -> (r: Result<ObjectId, Stop>)
        ensures
            match self.spec_conflicted_tree(resolved, trees, entries@) {
                Ok(tree) => r == Ok::<ObjectId, Stop>(tree),
                Err(stop) => r is Err && r->Err_0@ == stop,
            },
    {
        let probe = (resolved, trees, entries);
        match find_latest(&self.conflicted_tree_objects, &probe) {
            Some(fact) => Ok(fact.tree),
            None => Err(
                Stop::Unknown(Query::ConflictedTree { resolved, trees, entries: probe.2 }),
            ),
        }
    }

    /// Reads a commit message with the marks of a conflicted commit added.
    pub fn add_conflict_markers(&self, message: &[u8]) -> (r: Result<Vec<u8>, Stop>)
        ensures
            match self.spec_conflict_markers(message@) {
                Ok(marked) => r is Ok && r->Ok_0@ == marked,
                Err(stop) => r is Err && r->Err_0@ == stop,
            },
    {
        match find_latest(&self.conflict_markers, message) {
            Some(fact) => Ok(copy_bytes(fact.marked.as_slice())),
            None => Err(Stop::Unknown(Query::ConflictMarkers { message: copy_bytes(message) })),
        }
    }

    /// Reads the commit at the tip of a reference.
    pub fn find_reference(&self, name: &[u8]) -> (r: Result<Option<ObjectId>, Stop>)
        ensures
            match self.spec_reference(name@) {
                Ok(tip) => r == Ok::<Option<ObjectId>, Stop>(tip),
                Err(stop) => r is Err && r->Err_0@ == stop,
            },
    {
        match find_latest(&self.references, name) {
            Some(fact) => Ok(fact.tip),
            None => Err(Stop::Unknown(Query::Reference { name: copy_bytes(name) })),
        }
    }

    /// Reads the reference that a branch tracks.
    pub fn branch_remote_tracking_ref_name(&self, name: &[u8]) -> (r: Result<
        Option<Vec<u8>>,
        Stop,
    >)
        ensures
            match self.spec_tracking_branch(name@) {
                Ok(Some(tracking)) => r matches Ok(Some(found)) && found@ == tracking,
                Ok(None) => r matches Ok(None),
                Err(stop) => r is Err && r->Err_0@ == stop,
            },
    {
        match find_latest(&self.tracking_branches, name) {
            Some(fact) => match &fact.tracking {
                Some(tracking) => Ok(Some(copy_bytes(tracking.as_slice()))),
                None => Ok(None),
            },
            None => Err(Stop::Unknown(Query::TrackingBranch { name: copy_bytes(name) })),
        }
    }

    /// Reads a merge base of two commits.
    pub fn merge_base(&self, one: ObjectId, two: ObjectId) -> (r: Result<Option<ObjectId>, Stop>)
        ensures
            match self.spec_merge_base(one, two) {
                Ok(base) => r == Ok::<Option<ObjectId>, Stop>(base),
                Err(stop) => r is Err && r->Err_0@ == stop,
            },
    {
        match find_latest(&self.merge_bases, &(one, two)) {
            Some(fact) => Ok(fact.base),
            None => Err(Stop::Unknown(Query::MergeBase { one, two })),
        }
    }

    /// Reads the commits from a tip along first parents that are not reachable from a hidden
    /// commit.
    pub fn branch_commits_until(&self, tip: ObjectId, hidden: ObjectId) -> (r: Result<
        &Vec<ObjectId>,
        Stop,
    >)
        ensures
            match self.spec_first_parents(tip, hidden) {
                Ok(commits) => r is Ok && r->Ok_0@ == commits,
                Err(stop) => r is Err && r->Err_0@ == stop,
            },
    {
        match find_latest(&self.first_parents, &(tip, hidden)) {
            Some(fact) => Ok(&fact.commits),
            None => Err(Stop::Unknown(Query::FirstParents { tip, hidden })),
        }
    }

    /// Reads the change that a commit is a version of.
    pub fn effective_change_id(&self, commit: ObjectId) -> (r: Result<&String, Stop>)
        ensures
            match self.spec_change_id(commit) {
                Ok(change_id) => r is Ok && r->Ok_0@ == change_id,
                Err(stop) => r is Err && r->Err_0@ == stop,
            },
    {
        match find_latest(&self.change_ids, &commit) {
            Some(fact) => Ok(&fact.change_id),
            None => Err(Stop::Unknown(Query::ChangeId { commit })),
        }
    }

    /// Reads the configured author.
    pub fn configured_author(&self) -> (r: Result<Option<&Actor>, Stop>)
        ensures
            match self.spec_author() {
                Ok(Some(author)) => r matches Ok(Some(actor)) && actor@ == author,
                Ok(None) => r matches Ok(None),
                Err(stop) => r is Err && r->Err_0@ == stop,
            },
    {
        match &self.author {
            Some(Some(actor)) => Ok(Some(actor)),
            Some(None) => Ok(None),
            None => Err(Stop::Unknown(Query::Author)),
        }
    }

    /// Reads what the configuration says on GitButler as committer.
    pub fn configured_gitbutler_committer(&self) -> (r: Result<Option<bool>, Stop>)
        ensures
            match self.spec_gitbutler_committer() {
                Ok(flag) => r == Ok::<Option<bool>, Stop>(flag),
                Err(stop) => r is Err && r->Err_0@ == stop,
            },
    {
        match self.gitbutler_committer {
            Some(flag) => Ok(flag),
            None => Err(Stop::Unknown(Query::GitbutlerCommitter)),
        }
    }

    /// Reads the configured committer.
    pub fn configured_committer(&self) -> (r: Result<Option<&Actor>, Stop>)
        ensures
            match self.spec_committer() {
                Ok(Some(committer)) => r matches Ok(Some(actor)) && actor@ == committer,
                Ok(None) => r matches Ok(None),
                Err(stop) => r is Err && r->Err_0@ == stop,
            },
    {
        match &self.committer {
            Some(Some(actor)) => Ok(Some(actor)),
            Some(None) => Ok(None),
            None => Err(Stop::Unknown(Query::Committer)),
        }
    }

    /// Reads the date that the environment sets for committers.
    pub fn overriding_committer_date(&self) -> (r: Result<Option<&str>, Stop>)
        ensures
            match self.spec_committer_date() {
                Ok(Some(date)) => r matches Ok(Some(text)) && text@ == date,
                Ok(None) => r matches Ok(None),
                Err(stop) => r is Err && r->Err_0@ == stop,
            },
    {
        match &self.committer_date {
            Some(Some(text)) => Ok(Some(text.as_str())),
            Some(None) => Ok(None),
            None => Err(Stop::Unknown(Query::CommitterDate)),
        }
    }

    /// Reads the current time.
    pub fn current_time(&self) -> (r: Result<Clock, Stop>)
        ensures
            match self.spec_clock() {
                Ok(clock) => r == Ok::<Clock, Stop>(clock),
                Err(stop) => r is Err && r->Err_0@ == stop,
            },
    {
        match self.clock {
            Some(clock) => Ok(clock),
            None => Err(Stop::Unknown(Query::Clock)),
        }
    }
}

} // verus!

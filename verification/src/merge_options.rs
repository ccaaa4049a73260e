//! How trees are merged: which side wins, what counts as a conflict, how the sides are labelled.
use crate::object_id::ObjectId;
use gix::merge::tree::treat_as_unresolved;
use vstd::prelude::*;

verus! {

/// Which state of a tree survives where two sides change it irreconcilably.
#[derive(Clone, Copy, Debug, PartialEq, Eq, Structural)]
pub enum TreeFavor {
    Ours,
    Ancestor,
}

/// Which side's content survives where two sides change a file in conflict.
#[derive(Clone, Copy, Debug, PartialEq, Eq, Structural)]
pub enum FileFavor {
    Ours,
    Theirs,
}

/// Which content merges count as unresolved.
#[derive(Clone, Copy, Debug, PartialEq, Eq, Structural)]
pub enum ContentMerge {
    /// Those that still show conflict markers.
    Markers,
    /// Those, and the ones that were resolved by favouring a side.
    ForcedResolution,
}

/// Which tree merges count as unresolved.
#[derive(Clone, Copy, Debug, PartialEq, Eq, Structural)]
pub enum TreeMergeKind {
    /// Failed renames.
    Undecidable,
    /// Those, and the ones where an item was renamed to avoid a clash.
    EvasiveRenames,
    /// Those, and the ones that were resolved by favouring a side.
    ForcedResolution,
}

/// What counts as an unresolved conflict.
#[derive(Clone, Copy, Debug, PartialEq, Eq, Structural)]
pub struct TreatAsUnresolved {
    pub content_merge: ContentMerge,
    pub tree_merge: TreeMergeKind,
}

/// Whether renames are tracked.
#[derive(Clone, Copy, Debug, PartialEq, Eq, Structural)]
pub enum RenameTracking {
    AsConfigured,
    Disabled,
}

/// What a tree merge changes of the options that the repository configures.
#[derive(Clone, Copy, Debug, PartialEq, Eq, Structural)]
pub struct MergeOptions {
    pub tree_favor: Option<TreeFavor>,
    pub file_favor: Option<FileFavor>,
    /// If set, the merge stops at the first conflict that counts as unresolved.
    pub fail_on_conflict: Option<TreatAsUnresolved>,
    pub renames: RenameTracking,
}

/// The names that conflict markers give to the sides of a merge.
#[derive(Clone, Copy, Debug, PartialEq, Eq, Structural)]
pub enum MergeLabels {
    /// No names.
    Unnamed,
    /// `base`, `ours` and `theirs`.
    Sides,
}

impl MergeLabels {
    /// The name of the common ancestor.
    pub fn ancestor(&self) -> (r: Option<&'static str>)
        ensures
            r is Some <==> *self == MergeLabels::Sides,
            r matches Some(text) ==> text@ == "base"@,
    {
        match self {
            MergeLabels::Unnamed => None,
            MergeLabels::Sides => Some("base"),
        }
    }

    /// The name of our side.
    pub fn current(&self) -> (r: Option<&'static str>)
        ensures
            r is Some <==> *self == MergeLabels::Sides,
            r matches Some(text) ==> text@ == "ours"@,
    {
        match self {
            MergeLabels::Unnamed => None,
            MergeLabels::Sides => Some("ours"),
        }
    }

    /// The name of their side.
    pub fn other(&self) -> (r: Option<&'static str>)
        ensures
            r is Some <==> *self == MergeLabels::Sides,
            r matches Some(text) ==> text@ == "theirs"@,
    {
        match self {
            MergeLabels::Unnamed => None,
            MergeLabels::Sides => Some("theirs"),
        }
    }
}

/// A merge of two trees that descend from a third.
#[derive(Clone, Copy, Debug, PartialEq, Eq)]
pub struct TreeMerge {
    pub base: ObjectId,
    pub ours: ObjectId,
    pub theirs: ObjectId,
    pub labels: MergeLabels,
    pub options: MergeOptions,
}

impl TreeMerge {
    /// Whether two merges have the same trees, labels and options.
    pub fn same(&self, other: &TreeMerge) -> (r: bool)
        ensures
            r == (*self == *other),
    {
        self.base.same(&other.base) && self.ours.same(&other.ours)
            && self.theirs.same(&other.theirs) && self.labels == other.labels && self.options
            == other.options
    }
}

/// Everything that was resolved by favouring a side counts as unresolved.
pub open spec fn forced_resolution() -> TreatAsUnresolved {
    TreatAsUnresolved {
        content_merge: ContentMerge::ForcedResolution,
        tree_merge: TreeMergeKind::ForcedResolution,
    }
}

/// Calls `gix::merge::tree::TreatAsUnresolved::forced_resolution`, the most sensitive preset: it
/// counts forced resolutions of content and of trees as unresolved.
#[verifier::external_body]
fn gix_forced_resolution() -> (r: TreatAsUnresolved)
    ensures
        r == forced_resolution(),
{
    let kind = gix::merge::tree::TreatAsUnresolved::forced_resolution();
    TreatAsUnresolved {
        content_merge: match kind.content_merge {
            treat_as_unresolved::ContentMerge::Markers => ContentMerge::Markers,
            treat_as_unresolved::ContentMerge::ForcedResolution => ContentMerge::ForcedResolution,
        },
        tree_merge: match kind.tree_merge {
            treat_as_unresolved::TreeMerge::Undecidable => TreeMergeKind::Undecidable,
            treat_as_unresolved::TreeMerge::EvasiveRenames => TreeMergeKind::EvasiveRenames,
            treat_as_unresolved::TreeMerge::ForcedResolution => TreeMergeKind::ForcedResolution,
        },
    }
}

/// The options as the repository configures them.
pub open spec fn configured() -> MergeOptions {
    MergeOptions {
        tree_favor: None,
        file_favor: None,
        fail_on_conflict: None,
        renames: RenameTracking::AsConfigured,
    }
}

impl TreatAsUnresolved {
    /// The kind of conflict that merges here look for: everything that was not merged cleanly,
    /// also where a side was favoured.
    pub fn forced_resolution() -> (r: TreatAsUnresolved)
        ensures
            r == forced_resolution(),
    {
        gix_forced_resolution()
    }
}

} // verus!

//! Collecting the state of the index and the worktree into a tree.
use crate::bytes::{byte_strings, copy_bytes, same_bytes};
use crate::object_id::ObjectId;
use crate::repository::Repository;
use crate::stop::{Stop, StopView};
use vstd::prelude::*;

verus! {

/// What kind of object an entry of a tree names.
#[derive(Clone, Copy, Debug, PartialEq, Eq, Structural)]
pub enum EntryKind {
    Tree,
    Blob,
    BlobExecutable,
    Link,
    Commit,
}

/// How a path of the index differs in the worktree.
#[derive(Clone, Copy, Debug, PartialEq, Eq)]
pub enum EntryStatus {
    /// It is gone.
    Removed,
    /// It is of another type.
    TypeChange,
    /// Its content or its mode differs.
    Modification,
    /// It is conflicted in the index.
    Conflict,
    /// It was announced to the index without content.
    IntentToAdd,
    /// It is a submodule that changed, with the commit that is checked out there.
    SubmoduleModification { checked_out_head: Option<ObjectId> },
    /// Only the information about the file in the index is out of date.
    NeedsUpdate,
}

/// How a path of the worktree is seen where the directory was walked.
#[derive(Clone, Copy, Debug, PartialEq, Eq, Structural)]
pub enum DirectoryStatus {
    Untracked,
    Known,
    Pruned,
    Ignored,
}

/// A difference between `HEAD` and the index, or between the index and the worktree. Modes are
/// those of the index.
#[derive(Debug, PartialEq, Eq)]
pub enum StatusItem {
    IndexDeletion { path: Vec<u8> },
    IndexAddition { path: Vec<u8>, mode: u32, id: ObjectId },
    IndexModification { path: Vec<u8>, mode: u32, id: ObjectId },
    WorktreeModification { path: Vec<u8>, status: EntryStatus },
    DirectoryContents { path: Vec<u8>, seen: DirectoryStatus },
}

/// A file of the worktree as it is stored.
#[derive(Clone, Copy, Debug, PartialEq, Eq)]
pub struct WorktreeFile {
    pub id: ObjectId,
    pub kind: EntryKind,
    /// The size of the file in bytes.
    pub len: u64,
}

/// A change to the tree of `HEAD`.
#[derive(Debug, PartialEq, Eq)]
pub enum TreeEdit {
    /// The path is taken out.
    Remove { path: Vec<u8> },
    /// The path is set to an object.
    Upsert { path: Vec<u8>, kind: EntryKind, id: ObjectId },
}

/// A [`TreeEdit`] with its path as a sequence.
pub enum TreeEditView {
    Remove { path: Seq<u8> },
    Upsert { path: Seq<u8>, kind: EntryKind, id: ObjectId },
}

impl View for TreeEdit {
    type V = TreeEditView;

    open spec fn view(&self) -> TreeEditView {
        match *self {
            TreeEdit::Remove { path } => TreeEditView::Remove { path: path@ },
            TreeEdit::Upsert { path, kind, id } => TreeEditView::Upsert { path: path@, kind, id },
        }
    }
}

impl TreeEditView {
    /// The path that an edit concerns.
    pub open spec fn path(self) -> Seq<u8> {
        match self {
            TreeEditView::Remove { path } => path,
            TreeEditView::Upsert { path, kind: _, id: _ } => path,
        }
    }
}

/// What a list of edits does.
pub open spec fn edit_views(edits: Seq<TreeEdit>) -> Seq<TreeEditView> {
    edits.map_values(|edit: TreeEdit| edit@)
}

/// The kind of tree entry that a mode of the index stands for, if it stands for one. The upper
/// four of its sixteen bits tell the type, and one of the lower tells executable files.
pub open spec fn entry_kind_of_mode(mode: u32) -> Option<EntryKind> {
    let file_type = (mode as u16) & 0o170000;
    if mode == 0o040000 {
        Some(EntryKind::Tree)
    } else if mode & 0o100000 != 0o100000 {
        None
    } else if file_type == 0o100000 {
        if (mode as u16) & 0o100 == 0o100 {
            Some(EntryKind::BlobExecutable)
        } else {
            Some(EntryKind::Blob)
        }
    } else if file_type == 0o120000 {
        Some(EntryKind::Link)
    } else if file_type == 0o140000 {
        Some(EntryKind::Tree)
    } else {
        Some(EntryKind::Commit)
    }
}

/// Calls `gix::index::entry::Mode::to_tree_entry_mode`, and `kind` on what it returns. Modes of
/// files, links, submodules and directories have a kind, told apart by the bits of the file type,
/// and by the owner's executable bit for files.
#[verifier::external_body]
fn mode_to_entry_kind(mode: u32) -> (r: Option<EntryKind>)
    ensures
        r == entry_kind_of_mode(mode),
{
    let mode = gix::index::entry::Mode::from_bits_retain(mode).to_tree_entry_mode()?;
    Some(match mode.kind() {
        gix::object::tree::EntryKind::Tree => EntryKind::Tree,
        gix::object::tree::EntryKind::Blob => EntryKind::Blob,
        gix::object::tree::EntryKind::BlobExecutable => EntryKind::BlobExecutable,
        gix::object::tree::EntryKind::Link => EntryKind::Link,
        gix::object::tree::EntryKind::Commit => EntryKind::Commit,
    })
}

/// How far the differences have been turned into edits.
pub struct Progress {
    /// The edits so far.
    pub edits: Seq<TreeEditView>,
    /// The paths whose state in the worktree was taken.
    pub taken: Seq<Seq<u8>>,
    /// The untracked paths, whose edits come last.
    pub untracked: Seq<Seq<u8>>,
}

/// Whether an untracked file is left out for its size. None is if the limit is zero.
pub open spec fn too_large(file: WorktreeFile, limit: u64) -> bool {
    limit != 0 && file.len > limit
}

/// The edit that brings a file of the worktree into the tree, whatever its size. The path is
/// removed if there is nothing to store.
pub open spec fn file_edit(repo: &Repository, path: Seq<u8>) -> Result<TreeEditView, StopView> {
    match repo.spec_worktree_file(path) {
        Err(stop) => Err(stop),
        Ok(None) => Ok(TreeEditView::Remove { path }),
        Ok(Some(file)) => Ok(TreeEditView::Upsert { path, kind: file.kind, id: file.id }),
    }
}

/// The edit that brings an untracked file into the tree, `None` if the file is too large.
pub open spec fn untracked_edit(repo: &Repository, limit: u64, path: Seq<u8>) -> Result<
    Option<TreeEditView>,
    StopView,
> {
    match repo.spec_worktree_file(path) {
        Err(stop) => Err(stop),
        Ok(Some(file)) if too_large(file, limit) => Ok(None),
        Ok(_) => match file_edit(repo, path) {
            Err(stop) => Err(stop),
            Ok(edit) => Ok(Some(edit)),
        },
    }
}

/// The progress with one more edit, which takes the worktree's state of a path.
pub open spec fn taking(progress: Progress, edit: TreeEditView) -> Progress {
    Progress {
        edits: progress.edits.push(edit),
        taken: progress.taken.push(edit.path()),
        ..progress
    }
}

/// The progress with one more edit for a difference of the index, unless the path's state in the
/// worktree was taken.
pub open spec fn indexing(progress: Progress, edit: TreeEditView) -> Progress {
    if progress.taken.contains(edit.path()) {
        progress
    } else {
        Progress { edits: progress.edits.push(edit), ..progress }
    }
}

/// The progress after a difference of the worktree whose file is to be read.
pub open spec fn reading(repo: &Repository, progress: Progress, path: Seq<u8>) -> Result<
    Progress,
    StopView,
> {
    match file_edit(repo, path) {
        Err(stop) => Err(stop),
        Ok(edit) => match edit {
            TreeEditView::Remove { path: _ } => Ok(
                Progress { edits: progress.edits.push(edit), ..progress },
            ),
            TreeEditView::Upsert { path: _, kind: _, id: _ } => Ok(taking(progress, edit)),
        },
    }
}

/// The progress after one more difference.
pub open spec fn progress_after(
    repo: &Repository,
    progress: Progress,
    item: StatusItem,
) -> Result<Progress, StopView> {
    match item {
        StatusItem::IndexDeletion { path } => Ok(
            indexing(progress, TreeEditView::Remove { path: path@ }),
        ),
        StatusItem::IndexAddition { path, mode, id }
        | StatusItem::IndexModification { path, mode, id } => Ok(
            match entry_kind_of_mode(mode) {
                None => progress,
                Some(kind) => indexing(
                    progress,
                    TreeEditView::Upsert { path: path@, kind, id },
                ),
            },
        ),
        StatusItem::WorktreeModification { path, status } => match status {
            EntryStatus::Removed => Ok(taking(progress, TreeEditView::Remove { path: path@ })),
            EntryStatus::TypeChange
            | EntryStatus::Modification
            | EntryStatus::Conflict
            | EntryStatus::IntentToAdd => reading(repo, progress, path@),
            EntryStatus::SubmoduleModification { checked_out_head } => Ok(
                match checked_out_head {
                    None => progress,
                    Some(id) => taking(
                        progress,
                        TreeEditView::Upsert { path: path@, kind: EntryKind::Commit, id },
                    ),
                },
            ),
            EntryStatus::NeedsUpdate => Ok(progress),
        },
        StatusItem::DirectoryContents { path, seen } => match seen {
            DirectoryStatus::Untracked => Ok(
                Progress { untracked: progress.untracked.push(path@), ..progress },
            ),
            DirectoryStatus::Known | DirectoryStatus::Pruned | DirectoryStatus::Ignored => Ok(
                progress,
            ),
        },
    }
}

/// The progress after a list of differences.
pub open spec fn progress_through(repo: &Repository, items: Seq<StatusItem>) -> Result<
    Progress,
    StopView,
>
    decreases items.len(),
{
    if items.len() == 0 {
        Ok(Progress { edits: Seq::empty(), taken: Seq::empty(), untracked: Seq::empty() })
    } else {
        match progress_through(repo, items.drop_last()) {
            Err(stop) => Err(stop),
            Ok(progress) => progress_after(repo, progress, items.last()),
        }
    }
}

/// Edits, followed by those for untracked files.
pub open spec fn with_untracked(
    repo: &Repository,
    limit: u64,
    edits: Seq<TreeEditView>,
    untracked: Seq<Seq<u8>>,
) -> Result<Seq<TreeEditView>, StopView>
    decreases untracked.len(),
{
    if untracked.len() == 0 {
        Ok(edits)
    } else {
        match with_untracked(repo, limit, edits, untracked.drop_last()) {
            Err(stop) => Err(stop),
            Ok(before) => match untracked_edit(repo, limit, untracked.last()) {
                Err(stop) => Err(stop),
                Ok(None) => Ok(before),
                Ok(Some(edit)) => Ok(before.push(edit)),
            },
        }
    }
}

/// The edits that turn the tree of `HEAD` into one of the index and the worktree.
pub open spec fn worktree_edits(repo: &Repository, limit: u64) -> Result<
    Seq<TreeEditView>,
    StopView,
> {
    match repo.spec_status() {
        Err(stop) => Err(stop),
        Ok(items) => match progress_through(repo, items) {
            Err(stop) => Err(stop),
            Ok(progress) => with_untracked(repo, limit, progress.edits, progress.untracked),
        },
    }
}

/// How far the differences have been turned into edits.
struct EditList {
    edits: Vec<TreeEdit>,
    taken: Vec<Vec<u8>>,
    untracked: Vec<Vec<u8>>,
}

impl View for EditList {
    type V = Progress;

    closed spec fn view(&self) -> Progress {
        Progress {
            edits: edit_views(self.edits@),
            taken: byte_strings(self.taken@),
            untracked: byte_strings(self.untracked@),
        }
    }
}

impl EditList {
    /// Adds an edit.
    fn push(&mut self, edit: TreeEdit)
        ensures
            final(self)@ == (Progress { edits: old(self)@.edits.push(edit@), ..old(self)@ }),
    {
        self.edits.push(edit);
        assert(edit_views(self.edits@) =~= edit_views(old(self).edits@).push(edit@));
    }

    /// Remembers that the worktree's state of a path was taken.
    fn take_path(&mut self, path: &[u8])
        ensures
            final(self)@ == (Progress { taken: old(self)@.taken.push(path@), ..old(self)@ }),
    {
        let path = copy_bytes(path);
        self.taken.push(path);
        assert(byte_strings(self.taken@) =~= byte_strings(old(self).taken@).push(path@));
    }

    /// Puts an untracked path off.
    fn put_off(&mut self, path: &[u8])
        ensures
            final(self)@ == (Progress {
                untracked: old(self)@.untracked.push(path@),
                ..old(self)@
            }),
    {
        let path = copy_bytes(path);
        self.untracked.push(path);
        assert(byte_strings(self.untracked@) =~= byte_strings(old(self).untracked@).push(path@));
    }

    /// Whether the worktree's state of a path was taken.
    fn is_taken(&self, path: &[u8]) -> (r: bool)
        ensures
            r == self@.taken.contains(path@),
    {
        let mut i: usize = 0;
        while i < self.taken.len()
            invariant
                i <= self.taken.len(),
                forall|k: int| 0 <= k < i ==> self@.taken[k] != path@,
            decreases self.taken.len() - i,
        {
            if same_bytes(self.taken[i].as_slice(), path) {
                assert(self@.taken[i as int] == path@);
                return true;
            }
            assert(self@.taken[i as int] != path@);
            i = i + 1;
        }
        false
    }

    /// Adds the edit that brings a file of the worktree into the tree, and tells whether the file
    /// was brought in.
    fn add_worktree_file(&mut self, repo: &Repository, path: &[u8]) -> (r: Result<bool, Stop>)
        ensures
            match file_edit(repo, path@) {
                Err(stop) => r is Err && r->Err_0@ == stop,
                Ok(edit) => {
                    &&& r == Ok::<bool, Stop>(edit is Upsert)
                    &&& final(self)@ == (Progress {
                        edits: old(self)@.edits.push(edit),
                        ..old(self)@
                    })
                },
            },
    {
        match repo.worktree_file_to_object(path)? {
            None => {
                self.push(TreeEdit::Remove { path: copy_bytes(path) });
                Ok(false)
            },
            Some(file) => {
                self.push(
                    TreeEdit::Upsert { path: copy_bytes(path), kind: file.kind, id: file.id },
                );
                Ok(true)
            },
        }
    }

    /// Adds the edit that brings an untracked file into the tree, unless the file is too large.
    fn add_untracked_file(&mut self, repo: &Repository, limit: u64, path: &[u8]) -> (r: Result<
        (),
        Stop,
    >)
        ensures
            match untracked_edit(repo, limit, path@) {
                Err(stop) => r is Err && r->Err_0@ == stop,
                Ok(None) => r is Ok && final(self)@ == old(self)@,
                Ok(Some(edit)) => {
                    &&& r is Ok
                    &&& final(self)@ == (Progress {
                        edits: old(self)@.edits.push(edit),
                        ..old(self)@
                    })
                },
            },
    {
        if let Some(file) = repo.worktree_file_to_object(path)? {
            if limit != 0 && file.len > limit {
                return Ok(());
            }
        }
        self.add_worktree_file(repo, path)?;
        Ok(())
    }

    /// Adds the edit for an entry of the index, unless the path's state in the worktree was taken.
    fn add_index_entry(&mut self, path: &[u8], mode: u32, id: ObjectId)
        ensures
            final(self)@ == match entry_kind_of_mode(mode) {
                None => old(self)@,
                Some(kind) => indexing(
                    old(self)@,
                    TreeEditView::Upsert { path: path@, kind, id },
                ),
            },
    {
        if let Some(kind) = mode_to_entry_kind(mode) {
            if !self.is_taken(path) {
                self.push(TreeEdit::Upsert { path: copy_bytes(path), kind, id });
            }
        }
    }

    /// Adds the edits for a path that differs in the worktree.
    fn add_worktree_change(
        &mut self,
        repo: &Repository,
        path: &[u8],
        status: EntryStatus,
    ) -> (r: Result<(), Stop>)
        ensures
            forall|owned: Vec<u8>|
                owned@ == path@ ==> match #[trigger] progress_after(
                    repo,
                    old(self)@,
                    StatusItem::WorktreeModification { path: owned, status },
                ) {
                    Ok(progress) => r is Ok && final(self)@ == progress,
                    Err(stop) => r is Err && r->Err_0@ == stop,
                },
    {
        match status {
            EntryStatus::Removed => {
                self.push(TreeEdit::Remove { path: copy_bytes(path) });
                self.take_path(path);
            },
            EntryStatus::TypeChange
            | EntryStatus::Modification
            | EntryStatus::Conflict
            | EntryStatus::IntentToAdd => {
                if self.add_worktree_file(repo, path)? {
                    self.take_path(path);
                }
            },
            EntryStatus::SubmoduleModification { checked_out_head } => {
                if let Some(id) = checked_out_head {
                    self.push(
                        TreeEdit::Upsert { path: copy_bytes(path), kind: EntryKind::Commit, id },
                    );
                    self.take_path(path);
                }
            },
            EntryStatus::NeedsUpdate => {},
        }
        Ok(())
    }

    /// Adds the edits for a difference.
    fn add_item(&mut self, repo: &Repository, item: &StatusItem) -> (r: Result<(), Stop>)
        ensures
            match progress_after(repo, old(self)@, *item) {
                Ok(progress) => r is Ok && final(self)@ == progress,
                Err(stop) => r is Err && r->Err_0@ == stop,
            },
    {
        match item {
            StatusItem::IndexDeletion { path } => {
                if !self.is_taken(path.as_slice()) {
                    self.push(TreeEdit::Remove { path: copy_bytes(path.as_slice()) });
                }
            },
            StatusItem::IndexAddition { path, mode, id } => {
                self.add_index_entry(path.as_slice(), *mode, *id);
            },
            StatusItem::IndexModification { path, mode, id } => {
                self.add_index_entry(path.as_slice(), *mode, *id);
            },
            StatusItem::WorktreeModification { path, status } => {
                self.add_worktree_change(repo, path.as_slice(), *status)?;
            },
            StatusItem::DirectoryContents { path, seen } => {
                if *seen == DirectoryStatus::Untracked {
                    self.put_off(path.as_slice());
                }
            },
        }
        Ok(())
    }
}

impl Repository {
    /// The edits that turn the tree of `HEAD` into one of the current state of the index and the
    /// worktree.
    ///
    /// What the worktree shows of a path prevails over what the index holds. Conflicted paths are
    /// taken from the worktree. Untracked files larger than `untracked_limit_in_bytes` are left
    /// out, unless the limit is zero; to tracked files the limit does not apply. Edits for
    /// untracked files come last.
    pub fn create_wd_tree(&self, untracked_limit_in_bytes: u64) -> (r: Result<Vec<TreeEdit>, Stop>)
        ensures
            match worktree_edits(self, untracked_limit_in_bytes) {
                Ok(edits) => r is Ok && edit_views(r->Ok_0@) == edits,
                Err(stop) => r is Err && r->Err_0@ == stop,
            },
    {
        let items = self.status_items()?;
        let mut list = EditList { edits: Vec::new(), taken: Vec::new(), untracked: Vec::new() };
        let mut i: usize = 0;
        proof {
            assert(list@.edits =~= Seq::empty());
            assert(list@.taken =~= Seq::empty());
            assert(list@.untracked =~= Seq::empty());
        }
        while i < items.len()
            invariant
                i <= items.len(),
                self.spec_status() == Ok::<Seq<StatusItem>, StopView>(items@),
                progress_through(self, items@.take(i as int)) == Ok::<Progress, StopView>(list@),
            decreases items.len() - i,
        {
            proof {
                assert(items@.take(i + 1).drop_last() =~= items@.take(i as int));
                if progress_through(self, items@.take(i + 1)) is Err {
                    lemma_progress_prefix(self, items@, i + 1);
                }
            }
            list.add_item(self, &items[i])?;
            i = i + 1;
        }
        assert(items@.take(i as int) =~= items@);
        let ghost progress = list@;
        let untracked = list.untracked;
        let mut list = EditList { edits: list.edits, taken: Vec::new(), untracked: Vec::new() };
        let mut k: usize = 0;
        while k < untracked.len()
            invariant
                k <= untracked.len(),
                byte_strings(untracked@) == progress.untracked,
                worktree_edits(self, untracked_limit_in_bytes) == with_untracked(
                    self,
                    untracked_limit_in_bytes,
                    progress.edits,
                    progress.untracked,
                ),
                with_untracked(
                    self,
                    untracked_limit_in_bytes,
                    progress.edits,
                    progress.untracked.take(k as int),
                ) == Ok::<Seq<TreeEditView>, StopView>(list@.edits),
            decreases untracked.len() - k,
        {
            proof {
                let paths = progress.untracked;
                assert(paths.take(k + 1).drop_last() =~= paths.take(k as int));
                if with_untracked(
                    self,
                    untracked_limit_in_bytes,
                    progress.edits,
                    paths.take(k + 1),
                ) is Err {
                    lemma_untracked_prefix(
                        self,
                        untracked_limit_in_bytes,
                        progress.edits,
                        paths,
                        k + 1,
                    );
                }
                assert(paths[k as int] == untracked@[k as int]@);
            }
            list.add_untracked_file(self, untracked_limit_in_bytes, untracked[k].as_slice())?;
            k = k + 1;
        }
        assert(progress.untracked.take(k as int) =~= progress.untracked);
        Ok(list.edits)
    }
}

/// What the first differences lack, all differences lack.
proof fn lemma_progress_prefix(repo: &Repository, items: Seq<StatusItem>, n: int)
    requires
        0 <= n <= items.len(),
        progress_through(repo, items.take(n)) is Err,
    ensures
        progress_through(repo, items) == progress_through(repo, items.take(n)),
    decreases items.len(),
{
    if n == items.len() {
        assert(items.take(n) =~= items);
    } else {
        assert(items.drop_last().take(n) =~= items.take(n));
        lemma_progress_prefix(repo, items.drop_last(), n);
    }
}

/// What the first untracked files lack, all untracked files lack.
proof fn lemma_untracked_prefix(
    repo: &Repository,
    limit: u64,
    edits: Seq<TreeEditView>,
    untracked: Seq<Seq<u8>>,
    n: int,
)
    requires
        0 <= n <= untracked.len(),
        with_untracked(repo, limit, edits, untracked.take(n)) is Err,
    ensures
        with_untracked(repo, limit, edits, untracked) == with_untracked(
            repo,
            limit,
            edits,
            untracked.take(n),
        ),
    decreases untracked.len(),
{
    if n == untracked.len() {
        assert(untracked.take(n) =~= untracked);
    } else {
        assert(untracked.drop_last().take(n) =~= untracked.take(n));
        lemma_untracked_prefix(repo, limit, edits, untracked.drop_last(), n);
    }
}

} // verus!

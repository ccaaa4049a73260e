//! Planning and merging the changes of selected commits, on small histories kept in memory.
use branch_integration::merge_options::{
    ContentMerge, FileFavor, MergeLabels, MergeOptions, RenameTracking, TreatAsUnresolved,
    TreeFavor, TreeMerge, TreeMergeKind,
};
use branch_integration::object_id::ObjectId;
use branch_integration::plan::{
    deduplicate_commit_ids, first_parent_of, plan_commit_changes_for_merge_for_tests,
    PlannedCommitChange,
};
use branch_integration::repository::{
    CleanMergeFact, CommitFact, ConflictEntries, ConflictEntriesFact, ConflictedTrees,
    ConflictedTreesFact, MergedTree, MergedTreeFact, OctopusBaseFact, Query, Repository, TreeFact,
    TreeKind,
};
use branch_integration::stop::{Failure, Stop};
use std::collections::{BTreeMap, BTreeSet};

type Files = BTreeMap<String, String>;

/// How a conflicted commit is stored.
struct Conflict {
    base: ObjectId,
    ours: ObjectId,
    theirs: ObjectId,
    trees_recorded: bool,
    paths: Option<Vec<&'static str>>,
}

struct WorldCommit {
    id: ObjectId,
    subject: &'static str,
    parents: Vec<ObjectId>,
    tree: ObjectId,
    conflict: Option<Conflict>,
}

/// A repository in memory.
struct World {
    commits: Vec<WorldCommit>,
    refs: Vec<(&'static str, ObjectId)>,
    trees: Vec<(ObjectId, Files)>,
}

fn oid(hex: &str) -> ObjectId {
    let digits: Vec<u8> = hex
        .bytes()
        .chain(std::iter::repeat(b'0'))
        .take(40)
        .map(|digit| match digit {
            b'0'..=b'9' => digit - b'0',
            _ => digit - b'a' + 10,
        })
        .collect();
    let mut bytes = [0u8; 20];
    for (byte, pair) in bytes.iter_mut().zip(digits.chunks(2)) {
        *byte = pair[0] * 16 + pair[1];
    }
    ObjectId { bytes }
}

impl World {
    fn new() -> Self {
        World {
            commits: Vec::new(),
            refs: Vec::new(),
            trees: vec![(ObjectId::empty_tree(), Files::new())],
        }
    }

    fn tree(&mut self, files: Files) -> ObjectId {
        if let Some((id, _)) = self.trees.iter().find(|(_, known)| *known == files) {
            return *id;
        }
        let mut bytes = [0xee; 20];
        bytes[19] = self.trees.len() as u8;
        let id = ObjectId { bytes };
        self.trees.push((id, files));
        id
    }

    fn files(&self, tree: ObjectId) -> Files {
        self.trees
            .iter()
            .find(|(id, _)| *id == tree)
            .map(|(_, files)| files.clone())
            .expect("the tree was written")
    }

    fn lookup_entry_by_path(&self, tree: ObjectId, path: &str) -> Option<String> {
        self.files(tree).get(path).cloned()
    }

    /// Adds a commit that changes the files of its first parent.
    fn commit(
        &mut self,
        hex: &str,
        subject: &'static str,
        parents: &[&str],
        changes: &[(&str, &str)],
    ) -> ObjectId {
        let parents: Vec<ObjectId> = parents.iter().map(|hex| oid(hex)).collect();
        let mut files = Files::new();
        for parent in &parents {
            let tree = self.find(*parent).expect("parents come first").tree;
            files.extend(self.files(tree));
        }
        for (path, content) in changes {
            files.insert(path.to_string(), content.to_string());
        }
        let tree = self.tree(files);
        let id = oid(hex);
        self.commits.push(WorldCommit { id, subject, parents, tree, conflict: None });
        id
    }

    fn reference(&mut self, name: &'static str, hex: &str) {
        self.refs.push((name, oid(hex)));
    }

    fn find(&self, id: ObjectId) -> Option<&WorldCommit> {
        self.commits.iter().find(|commit| commit.id == id)
    }

    fn rev_parse_single(&self, spec: &str) -> Option<ObjectId> {
        if let Some(spec) = spec.strip_suffix("^{tree}") {
            return Some(self.find(self.rev_parse_single(spec)?)?.tree);
        }
        let (name, back) = match spec.split_once('~') {
            Some((name, back)) => (name, back.parse::<usize>().ok()?),
            None => (spec, 0),
        };
        let mut id = self.refs.iter().find(|(known, _)| *known == name)?.1;
        for _ in 0..back {
            id = *self.find(id)?.parents.first()?;
        }
        Some(id)
    }

    fn ancestors(&self, id: ObjectId) -> BTreeSet<[u8; 20]> {
        let mut seen = BTreeSet::new();
        let mut left = vec![id];
        while let Some(id) = left.pop() {
            if seen.insert(id.bytes) {
                left.extend(self.find(id).expect("known commit").parents.iter().copied());
            }
        }
        seen
    }

    fn merge_base(&self, ids: &[ObjectId]) -> ObjectId {
        let mut common = self.ancestors(ids[0]);
        for id in ids {
            common = common.intersection(&self.ancestors(*id)).copied().collect();
        }
        common
            .iter()
            .map(|bytes| ObjectId { bytes: *bytes })
            .find(|id| self.ancestors(*id).len() == common.len())
            .expect("there is one best merge base")
    }

    /// Merges trees file by file, and lists the paths that both sides change differently.
    fn merge(&mut self, merge: &TreeMerge) -> (ObjectId, Vec<String>) {
        let base = self.files(merge.base);
        let ours = self.files(merge.ours);
        let theirs = self.files(merge.theirs);
        let mut merged = Files::new();
        let mut conflicts = Vec::new();
        let paths: BTreeSet<&String> =
            base.keys().chain(ours.keys()).chain(theirs.keys()).collect();
        for path in paths {
            let (b, o, t) = (base.get(path), ours.get(path), theirs.get(path));
            let content = if b == t || o == t {
                o.cloned()
            } else if b == o {
                t.cloned()
            } else {
                conflicts.push(path.clone());
                match merge.options.file_favor {
                    Some(FileFavor::Ours) => o.cloned(),
                    Some(FileFavor::Theirs) => t.cloned(),
                    None => Some("<<<<<<< ours\n=======\n>>>>>>> theirs\n".to_string()),
                }
            };
            if let Some(content) = content {
                merged.insert(path.clone(), content);
            }
        }
        (self.tree(merged), conflicts)
    }

    fn answer(&mut self, query: Query, repo: &mut Repository) {
        match query {
            Query::Commit { id } => {
                let commit = self.find(id).expect("known commit");
                repo.commits.push(CommitFact {
                    id,
                    parents: commit.parents.clone(),
                    conflicted: commit.conflict.is_some(),
                });
            }
            Query::Tree { commit, kind } => {
                let found = self.find(commit).expect("known commit");
                let tree = match (&found.conflict, kind) {
                    (Some(conflict), TreeKind::Base) => conflict.base,
                    (Some(conflict), TreeKind::Theirs) => conflict.theirs,
                    _ => found.tree,
                };
                repo.trees.push(TreeFact { commit, kind, tree });
            }
            Query::ConflictedTrees { commit } => {
                let conflict = self.find(commit).and_then(|c| c.conflict.as_ref());
                let trees = conflict.filter(|c| c.trees_recorded).map(|c| ConflictedTrees {
                    base: c.base,
                    ours: c.ours,
                    theirs: c.theirs,
                });
                repo.conflicted_trees.push(ConflictedTreesFact { commit, trees });
            }
            Query::ConflictEntries { commit } => {
                let conflict = self.find(commit).and_then(|c| c.conflict.as_ref());
                let entries = conflict.and_then(|c| c.paths.as_ref()).map(|paths| {
                    ConflictEntries {
                        paths: paths.iter().map(|path| path.as_bytes().to_vec()).collect(),
                    }
                });
                repo.conflict_entries.push(ConflictEntriesFact { commit, entries });
            }
            Query::OctopusBase { commits } => {
                let base = self.merge_base(&commits);
                repo.octopus_bases.push(OctopusBaseFact { commits, base });
            }
            Query::MergedTree { merge, unresolved_if } => {
                assert_eq!(unresolved_if, TreatAsUnresolved::forced_resolution());
                let (tree, conflicts) = self.merge(&merge);
                let unresolved = if conflicts.is_empty() {
                    None
                } else {
                    Some(ConflictEntries {
                        paths: conflicts.into_iter().map(String::into_bytes).collect(),
                    })
                };
                let merged = MergedTree { tree, unresolved };
                repo.merged_trees.push(MergedTreeFact { merge, unresolved_if, merged });
            }
            Query::CleanMerge { merge, unresolved_if } => {
                assert_eq!(unresolved_if, TreatAsUnresolved::forced_resolution());
                assert_eq!(merge.labels, MergeLabels::Unnamed);
                assert_eq!(merge.options.renames, RenameTracking::Disabled);
                let clean = self.merge(&merge).1.is_empty();
                repo.clean_merges.push(CleanMergeFact { merge, unresolved_if, clean });
            }
            other => panic!("unexpected question: {other:?}"),
        }
    }

    /// Runs an operation until it has all the answers that it needs.
    fn run<T>(&mut self, operation: impl Fn(&Repository) -> Result<T, Stop>) -> Result<T, Failure> {
        let mut repo = Repository::new();
        for _ in 0..200 {
            match operation(&repo) {
                Ok(value) => return Ok(value),
                Err(Stop::Unknown(query)) => self.answer(query, &mut repo),
                Err(Stop::Failed(failure)) => return Err(failure),
                Err(Stop::Pending(command)) => panic!("no editor is used: {command:?}"),
            }
        }
        panic!("the operation keeps asking");
    }
}

fn read_only_in_memory_scenario(name: &str) -> World {
    let mut w = World::new();
    match name {
        "octopus-merge-with-redundant-input" => {
            w.commit("66df43d", "base", &[], &[("base", "base\n")]);
            w.commit("777f2d5", "left-1", &["66df43d"], &[("left-1", "1\n")]);
            w.commit("cbaa825", "left-2", &["777f2d5"], &[("left-2", "2\n")]);
            w.commit("2a5954a", "right", &["66df43d"], &[("right", "right\n")]);
            w.commit("a7dcd9f", "octopus", &["66df43d", "cbaa825", "2a5954a"], &[]);
            w.reference("main", "a7dcd9f");
            w.reference("left", "cbaa825");
            w.reference("right", "2a5954a");
        }
        "merge-commits-excludes-unselected-parent" => {
            w.commit("b301433", "M", &[], &[("file-m", "m\n")]);
            w.commit("cec649d", "A", &["b301433"], &[("file-a", "a\n")]);
            w.commit("2eb5a0f", "B", &["b301433"], &[("file-b", "b\n")]);
            w.commit("fa946b5", "C", &["2eb5a0f"], &[("file-c", "c\n")]);
            w.reference("main", "b301433");
            w.reference("A", "cec649d");
            w.reference("B", "2eb5a0f");
            w.reference("C", "fa946b5");
        }
        "merge-with-two-branches-conflict" => {
            let lines = |range: std::ops::RangeInclusive<u32>| -> String {
                range.map(|n| format!("{n}\n")).collect()
            };
            w.commit("15bcd1b", "init", &[], &[("file", "")]);
            w.commit("88d7acc", "10 to 20", &["15bcd1b"], &[("file", &lines(10..=20))]);
            w.commit("47334c6", "20 to 30", &["15bcd1b"], &[("file", &lines(20..=30))]);
            w.reference("main", "15bcd1b");
            w.reference("A", "88d7acc");
            w.reference("B", "47334c6");
        }
        "merge-commit-changes-fail-fast-after-conflict" => {
            w.commit("66df43d", "base", &[], &[("shared.txt", "base\n")]);
            w.commit("332e45d", "A", &["66df43d"], &[("shared.txt", "A\n")]);
            w.commit("a1163f7", "B", &["66df43d"], &[("shared.txt", "B\n")]);
            w.commit("ea9d91a", "C", &["66df43d"], &[("file-c", "c\n")]);
            w.reference("main", "66df43d");
            w.reference("A", "332e45d");
            w.reference("B", "a1163f7");
            w.reference("C", "ea9d91a");
        }
        "merge-commits-preserve-noncontiguous-selected-changes" => {
            w.commit("b301433", "M", &[], &[("file-m", "m\n")]);
            w.commit("cec649d", "A", &["b301433"], &[("file-a", "a\n")]);
            w.commit("2eb5a0f", "B", &["b301433"], &[("file-b", "b\n")]);
            w.commit("fa946b5", "C", &["2eb5a0f"], &[("file-c", "c\n")]);
            w.commit("bf7c931", "D", &["fa946b5"], &[("file-d", "d\n")]);
            w.reference("main", "b301433");
            w.reference("A", "cec649d");
            w.reference("B", "bf7c931");
        }
        "three-branches-three-commits" => {
            w.commit("6dbc49d", "base", &[], &[("base", "base\n")]);
            w.commit("257ee22", "main-1", &["6dbc49d"], &[("main-1", "1\n")]);
            w.commit("6bbd9db", "main-2", &["257ee22"], &[("main-2", "2\n")]);
            w.commit("f1b6511", "main-3", &["6bbd9db"], &[("main-3", "3\n")]);
            w.commit("4b6a0f2", "left-1", &["6dbc49d"], &[("left-1", "1\n")]);
            w.commit("07bba81", "left-2", &["4b6a0f2"], &[("left-2", "2\n")]);
            w.commit("feaa00d", "left-3", &["07bba81"], &[("left-3", "3\n")]);
            w.commit("26b0bd5", "right-1", &["6dbc49d"], &[("right-1", "1\n")]);
            w.commit("0a63ea6", "right-2", &["26b0bd5"], &[("right-2", "2\n")]);
            w.commit("8259b01", "right-3", &["0a63ea6"], &[("right-3", "3\n")]);
            w.reference("main", "f1b6511");
            w.reference("left", "feaa00d");
            w.reference("right", "8259b01");
        }
        other => panic!("no such scenario: {other}"),
    }
    w
}

#[test]
fn merge_commit_changes_to_tree_matches_clean_octopus_merge() {
    let mut repo = read_only_in_memory_scenario("octopus-merge-with-redundant-input");

    let left_1 = repo.rev_parse_single("left~1").unwrap();
    let left_2 = repo.rev_parse_single("left").unwrap();
    let right = repo.rev_parse_single("right").unwrap();
    let expected_tree = repo.rev_parse_single("main^{tree}").unwrap();

    let actual_tree = repo
        .run(|repo| {
            repo.merge_commit_changes_to_tree(
                vec![left_1, left_2, right],
                repo.merge_options_fail_fast().0,
            )
        })
        .unwrap();

    assert_eq!(actual_tree.tree_id, expected_tree);
    assert!(actual_tree.conflict.is_none());
}

#[test]
fn merge_commit_changes_to_tree_excludes_unselected_parent_changes() {
    let mut repo = read_only_in_memory_scenario("merge-commits-excludes-unselected-parent");

    let a_commit = repo.rev_parse_single("A").unwrap();
    let c_commit = repo.rev_parse_single("C").unwrap();
    let merged_tree = repo
        .run(|repo| {
            repo.merge_commit_changes_to_tree(
                vec![a_commit, c_commit],
                repo.merge_options_fail_fast().0,
            )
        })
        .unwrap();

    let file_a = repo
        .lookup_entry_by_path(merged_tree.tree_id, "file-a")
        .expect("file-a should be present");
    assert_eq!(file_a, "a\n");

    let file_c = repo
        .lookup_entry_by_path(merged_tree.tree_id, "file-c")
        .expect("file-c should be present");
    assert_eq!(file_c, "c\n");

    assert!(
        repo.lookup_entry_by_path(merged_tree.tree_id, "file-b").is_none(),
        "file-b should not be pulled in from C's unselected parent"
    );
    assert!(merged_tree.conflict.is_none());
}

#[test]
fn merge_commit_changes_to_tree_reports_conflicts() {
    let mut repo = read_only_in_memory_scenario("merge-with-two-branches-conflict");

    let a_commit = repo.rev_parse_single("A").unwrap();
    let b_commit = repo.rev_parse_single("B").unwrap();
    let merged = repo
        .run(|repo| {
            repo.merge_commit_changes_to_tree(
                vec![a_commit, b_commit],
                repo.merge_options_force_ours(),
            )
        })
        .unwrap();

    let conflict = merged
        .conflict
        .expect("conflicting merge should report conflict metadata");
    assert_eq!(conflict.base_tree_id, repo.rev_parse_single("main^{tree}").unwrap());
    assert_eq!(conflict.ours_tree_id, repo.rev_parse_single("A^{tree}").unwrap());
    assert_eq!(conflict.theirs_tree_id, repo.rev_parse_single("B^{tree}").unwrap());
    assert!(conflict.conflict_entries.has_entries());

    let merged_file = repo
        .lookup_entry_by_path(merged.tree_id, "file")
        .expect("merged file should be present");
    assert_eq!(merged_file, "10\n11\n12\n13\n14\n15\n16\n17\n18\n19\n20\n");
}

#[test]
fn merge_commit_changes_to_tree_stops_folding_after_first_conflict() {
    let mut repo = read_only_in_memory_scenario("merge-commit-changes-fail-fast-after-conflict");

    let a_commit = repo.rev_parse_single("A").unwrap();
    let b_commit = repo.rev_parse_single("B").unwrap();
    let c_commit = repo.rev_parse_single("C").unwrap();
    let merged = repo
        .run(|repo| {
            repo.merge_commit_changes_to_tree(
                vec![a_commit, b_commit, c_commit],
                repo.merge_options_force_ours(),
            )
        })
        .unwrap();

    assert!(merged.conflict.is_some(), "the A/B merge should report a conflict");

    let shared = repo
        .lookup_entry_by_path(merged.tree_id, "shared.txt")
        .expect("shared.txt should be present");
    assert_eq!(shared, "A\n");

    assert!(
        repo.lookup_entry_by_path(merged.tree_id, "file-c").is_none(),
        "fail-fast folding should stop before applying C"
    );
}

#[test]
fn merge_commit_changes_to_tree_preserves_noncontiguous_selected_changes() {
    let mut repo =
        read_only_in_memory_scenario("merge-commits-preserve-noncontiguous-selected-changes");

    let a_commit = repo.rev_parse_single("A").unwrap();
    let b_commit = repo.rev_parse_single("B~2").unwrap();
    let d_commit = repo.rev_parse_single("B").unwrap();
    let merged_tree = repo
        .run(|repo| {
            repo.merge_commit_changes_to_tree(
                vec![a_commit, b_commit, d_commit],
                repo.merge_options_fail_fast().0,
            )
        })
        .unwrap();

    let file_a = repo
        .lookup_entry_by_path(merged_tree.tree_id, "file-a")
        .expect("file-a should be present");
    assert_eq!(file_a, "a\n");

    let file_b = repo
        .lookup_entry_by_path(merged_tree.tree_id, "file-b")
        .expect("file-b should be present");
    assert_eq!(file_b, "b\n");

    let file_d = repo
        .lookup_entry_by_path(merged_tree.tree_id, "file-d")
        .expect("file-d should be present");
    assert_eq!(file_d, "d\n");

    assert!(
        repo.lookup_entry_by_path(merged_tree.tree_id, "file-c").is_none(),
        "file-c should not be pulled in when only B and D are selected"
    );
    assert!(merged_tree.conflict.is_none());
}

#[test]
fn plan_commit_changes_for_merge_preserves_noncontiguous_selected_changes() {
    let mut repo =
        read_only_in_memory_scenario("merge-commits-preserve-noncontiguous-selected-changes");

    let a_commit = repo.rev_parse_single("A").unwrap();
    let b_commit = repo.rev_parse_single("B~2").unwrap();
    let d_commit = repo.rev_parse_single("B").unwrap();

    let plan = repo
        .run(|repo| {
            plan_commit_changes_for_merge_for_tests(repo, vec![a_commit, b_commit, d_commit])
        })
        .unwrap();

    assert_eq!(labeled_plan_entries(&repo, &plan), "A <- M\nB <- M\nD <- C\n");
}

#[test]
fn plan_commit_changes_for_merge_fixture_graph() {
    let mut repo = simplify_fixture().repo;

    let lines = [
        ("8259b01", "right-3", Some("0a63ea6")),
        ("0a63ea6", "right-2", Some("26b0bd5")),
        ("26b0bd5", "right-1", Some("6dbc49d")),
        ("feaa00d", "left-3", Some("07bba81")),
        ("07bba81", "left-2", Some("4b6a0f2")),
        ("4b6a0f2", "left-1", Some("6dbc49d")),
        ("f1b6511", "main-3", Some("6bbd9db")),
        ("6bbd9db", "main-2", Some("257ee22")),
        ("257ee22", "main-1", Some("6dbc49d")),
        ("6dbc49d", "base", None),
    ];
    for (hex, subject, parent) in lines {
        let commit = oid(hex);
        assert_eq!(label_commit_by_subject(&repo, commit).as_deref(), Some(subject));
        assert_eq!(repo.run(|repo| first_parent_of(repo, commit)), Ok(parent.map(oid)));
    }
    assert_eq!(repo.rev_parse_single("right"), Some(oid("8259b01")));
    assert_eq!(repo.rev_parse_single("left"), Some(oid("feaa00d")));
    assert_eq!(repo.rev_parse_single("main"), Some(oid("f1b6511")));
}

#[test]
fn plan_commit_changes_for_merge_collapses_contiguous_selected_chain() {
    let mut fixture = simplify_fixture();
    let selected = vec![fixture.left_1, fixture.left_2, fixture.left_3];

    let plan = fixture
        .repo
        .run(|repo| plan_commit_changes_for_merge_for_tests(repo, selected.clone()))
        .unwrap();

    assert_eq!(labeled_plan_entries(&fixture.repo, &plan), "left-3 <- base\n");
}

#[test]
fn plan_commit_changes_for_merge_preserves_unrelated_branch_tips() {
    let mut fixture = simplify_fixture();
    let selected = vec![
        fixture.left_1,
        fixture.left_3,
        fixture.main_2,
        fixture.right_1,
        fixture.right_3,
    ];

    let plan = fixture
        .repo
        .run(|repo| plan_commit_changes_for_merge_for_tests(repo, selected.clone()))
        .unwrap();

    assert_eq!(
        labeled_plan_entries(&fixture.repo, &plan),
        "left-1 <- base\nleft-3 <- left-2\nmain-2 <- main-1\nright-1 <- base\nright-3 <- right-2\n"
    );
}

#[test]
fn plan_commit_changes_for_merge_deduplicates_and_keeps_order_of_survivors() {
    let mut fixture = simplify_fixture();
    let selected = vec![
        fixture.main_3,
        fixture.left_2,
        fixture.main_2,
        fixture.left_2,
        fixture.right_3,
        fixture.left_3,
        fixture.right_1,
    ];

    let plan = fixture
        .repo
        .run(|repo| plan_commit_changes_for_merge_for_tests(repo, selected.clone()))
        .unwrap();

    assert_eq!(
        labeled_plan_entries(&fixture.repo, &plan),
        "main-3 <- main-1\nright-3 <- right-2\nleft-3 <- left-1\nright-1 <- base\n"
    );
}

struct SimplifyFixture {
    repo: World,
    main_2: ObjectId,
    main_3: ObjectId,
    left_1: ObjectId,
    left_2: ObjectId,
    left_3: ObjectId,
    right_1: ObjectId,
    right_3: ObjectId,
}

fn simplify_fixture() -> SimplifyFixture {
    let repo = read_only_in_memory_scenario("three-branches-three-commits");

    let main_2 = repo.rev_parse_single("main~1").unwrap();
    let main_3 = repo.rev_parse_single("main").unwrap();
    let left_1 = repo.rev_parse_single("left~2").unwrap();
    let left_2 = repo.rev_parse_single("left~1").unwrap();
    let left_3 = repo.rev_parse_single("left").unwrap();
    let right_1 = repo.rev_parse_single("right~2").unwrap();
    let right_3 = repo.rev_parse_single("right").unwrap();

    SimplifyFixture { repo, main_2, main_3, left_1, left_2, left_3, right_1, right_3 }
}

fn labeled_plan_entries(repo: &World, plan: &[PlannedCommitChange]) -> String {
    plan.iter()
        .map(|entry| {
            let commit =
                label_commit_by_subject(repo, entry.commit_id).unwrap_or_else(|| "unknown".into());
            let base =
                label_tree_by_subject(repo, entry.base_tree_id).unwrap_or_else(|| "unknown".into());
            format!("{commit} <- {base}")
        })
        .collect::<Vec<_>>()
        .join("\n")
        + "\n"
}

fn label_commit_by_subject(repo: &World, commit_id: ObjectId) -> Option<String> {
    Some(repo.find(commit_id)?.subject.to_string())
}

fn label_tree_by_subject(repo: &World, tree_id: ObjectId) -> Option<String> {
    if tree_id == ObjectId::empty_tree() {
        return Some("empty".into());
    }

    [
        "main", "main~1", "main~2", "main~3", "left", "left~1", "left~2", "left~3", "right",
        "right~1", "right~2", "right~3", "A", "B", "B~1", "B~2", "C",
    ]
    .into_iter()
    .find_map(|spec| {
        let commit = repo.find(repo.rev_parse_single(spec)?)?;
        if commit.tree == tree_id {
            Some(commit.subject.to_string())
        } else {
            None
        }
    })
}

#[test]
fn deduplication_keeps_first_occurrences() {
    let (a, b, c) = (oid("a"), oid("b"), oid("c"));
    assert_eq!(deduplicate_commit_ids(vec![b, a, b, c, a]), vec![b, a, c]);
    assert_eq!(deduplicate_commit_ids(vec![]), vec![]);
}

#[test]
fn selecting_a_commit_twice_changes_nothing() {
    let mut repo = read_only_in_memory_scenario("merge-commits-excludes-unselected-parent");
    let (a, c) = (repo.rev_parse_single("A").unwrap(), repo.rev_parse_single("C").unwrap());
    let once = repo.run(|repo| {
        repo.merge_commit_changes_to_tree(vec![a, c], repo.merge_options_fail_fast().0)
    });
    let twice = repo.run(|repo| {
        repo.merge_commit_changes_to_tree(vec![a, c, a, c], repo.merge_options_fail_fast().0)
    });
    assert!(once.is_ok());
    assert_eq!(once, twice);
}

#[test]
fn ranges_after_a_conflict_do_not_matter() {
    let mut repo = read_only_in_memory_scenario("merge-commit-changes-fail-fast-after-conflict");
    let (a, b, c) = (
        repo.rev_parse_single("A").unwrap(),
        repo.rev_parse_single("B").unwrap(),
        repo.rev_parse_single("C").unwrap(),
    );
    let short = repo
        .run(|repo| repo.merge_commit_changes_to_tree(vec![a, b], repo.merge_options_force_ours()));
    let long = repo.run(|repo| {
        repo.merge_commit_changes_to_tree(vec![a, b, c], repo.merge_options_force_ours())
    });
    assert_eq!(short, long);
}

#[test]
fn an_empty_selection_cannot_be_merged() {
    let mut repo = World::new();
    let refused = repo
        .run(|repo| repo.merge_commit_changes_to_tree(vec![], repo.merge_options_force_ours()));
    assert_eq!(refused, Err(Failure::NoCommits));
    assert_eq!(Failure::NoCommits.message(), "Cannot merge an empty set of commits");
}

#[test]
fn the_range_of_a_root_starts_at_the_empty_tree() {
    let mut repo = read_only_in_memory_scenario("three-branches-three-commits");
    let plan = repo
        .run(|repo| plan_commit_changes_for_merge_for_tests(repo, vec![oid("6dbc49d")]))
        .unwrap();
    assert_eq!(labeled_plan_entries(&repo, &plan), "base <- empty\n");
    assert_eq!(
        ObjectId::empty_tree().to_hex(),
        "4b825dc642cb6eb9a060e54bf8d69288fbee4904"
    );
}

#[test]
fn a_selection_whose_first_parents_run_in_a_circle_is_refused() {
    let mut repo = World::new();
    let (a, b, c) = (oid("a"), oid("b"), oid("c"));
    let tree = ObjectId::empty_tree();
    for (id, parent) in [(a, b), (b, c), (c, b)] {
        repo.commits.push(WorldCommit {
            id,
            subject: "circle",
            parents: vec![parent],
            tree,
            conflict: None,
        });
    }
    assert_eq!(
        repo.run(|repo| plan_commit_changes_for_merge_for_tests(repo, vec![a, b, c])),
        Err(Failure::CyclicHistory { commit: a })
    );
    assert_eq!(
        Failure::CyclicHistory { commit: a }.message(),
        "The first parents of commit a000000000000000000000000000000000000000 lead back to it"
    );
}

fn conflicted_world(trees_recorded: bool, paths: Option<Vec<&'static str>>) -> (World, ObjectId) {
    let mut w = World::new();
    let parent = w.commit("1", "parent", &[], &[("file", "parent\n")]);
    let side = |w: &mut World, content: &str| {
        w.tree(Files::from([("file".to_string(), content.to_string())]))
    };
    let (base, ours, theirs) =
        (side(&mut w, "base\n"), side(&mut w, "ours\n"), side(&mut w, "theirs\n"));
    let tree = side(&mut w, "resolved\n");
    w.commits.push(WorldCommit {
        id: oid("2"),
        subject: "conflicted",
        parents: vec![parent],
        tree,
        conflict: Some(Conflict { base, ours, theirs, trees_recorded, paths }),
    });
    (w, oid("2"))
}

#[test]
fn a_single_conflicted_commit_keeps_its_conflict() {
    let (mut repo, commit) = conflicted_world(true, Some(vec!["file"]));
    let merged = repo
        .run(|repo| {
            repo.merge_commit_changes_to_tree(vec![commit], repo.merge_options_force_ours())
        })
        .unwrap();
    assert_eq!(repo.lookup_entry_by_path(merged.tree_id, "file").as_deref(), Some("resolved\n"));
    let conflict = merged.conflict.unwrap();
    let content = |tree| repo.lookup_entry_by_path(tree, "file");
    assert_eq!(content(conflict.base_tree_id).as_deref(), Some("base\n"));
    assert_eq!(content(conflict.ours_tree_id).as_deref(), Some("ours\n"));
    assert_eq!(content(conflict.theirs_tree_id).as_deref(), Some("theirs\n"));
    assert_eq!(conflict.conflict_entries.paths, vec![b"file".to_vec()]);
}

#[test]
fn a_conflicted_commit_must_record_its_conflict() {
    let (mut repo, commit) = conflicted_world(false, Some(vec!["file"]));
    let merged = repo.run(|repo| {
        repo.merge_commit_changes_to_tree(vec![commit], repo.merge_options_force_ours())
    });
    assert_eq!(merged, Err(Failure::MissingConflictedTrees));
    assert_eq!(
        Failure::MissingConflictedTrees.message(),
        "conflicted commit is missing conflicted tree sides"
    );

    let (mut repo, commit) = conflicted_world(true, None);
    let merged = repo.run(|repo| {
        repo.merge_commit_changes_to_tree(vec![commit], repo.merge_options_force_ours())
    });
    assert_eq!(merged, Err(Failure::MissingConflictEntries));
    assert_eq!(
        Failure::MissingConflictEntries.message(),
        "conflicted commit is missing conflict entries"
    );
}

#[test]
fn a_clean_commit_is_picked_relative_to_its_first_parent() {
    let mut repo = read_only_in_memory_scenario("merge-commits-excludes-unselected-parent");
    let (a, c) = (repo.rev_parse_single("A").unwrap(), repo.rev_parse_single("C").unwrap());
    let merge = repo
        .run(|repo| repo.cherry_pick_commits_to_tree(a, c, repo.merge_options_force_ours()))
        .unwrap();
    assert_eq!(merge.base, repo.rev_parse_single("B^{tree}").unwrap());
    assert_eq!(merge.ours, repo.rev_parse_single("A^{tree}").unwrap());
    assert_eq!(merge.theirs, repo.rev_parse_single("C^{tree}").unwrap());
    assert_eq!(merge.labels, MergeLabels::Sides);

    let (tree, conflicts) = repo.merge(&merge);
    assert!(conflicts.is_empty());
    assert_eq!(
        repo.files(tree).into_keys().collect::<Vec<_>>(),
        vec!["file-a", "file-c", "file-m"]
    );
}

#[test]
fn a_root_is_picked_relative_to_the_empty_tree() {
    let mut repo = read_only_in_memory_scenario("merge-commits-excludes-unselected-parent");
    let (a, root) = (repo.rev_parse_single("A").unwrap(), repo.rev_parse_single("main").unwrap());
    let merge = repo
        .run(|repo| repo.cherry_pick_commits_to_tree(a, root, repo.merge_options_force_ours()))
        .unwrap();
    assert_eq!(merge.base, ObjectId::empty_tree());
}

#[test]
fn a_conflicted_commit_is_picked_relative_to_the_base_of_its_conflict() {
    let (mut repo, commit) = conflicted_world(true, Some(vec!["file"]));
    let merge = repo
        .run(|repo| {
            repo.cherry_pick_commits_to_tree(oid("1"), commit, repo.merge_options_force_ours())
        })
        .unwrap();
    let content = |tree| repo.lookup_entry_by_path(tree, "file");
    assert_eq!(content(merge.base).as_deref(), Some("base\n"));
    assert_eq!(content(merge.ours).as_deref(), Some("parent\n"));
    assert_eq!(content(merge.theirs).as_deref(), Some("theirs\n"));
}

#[test]
fn merges_cleanly_tells_conflicts() {
    let mut repo = read_only_in_memory_scenario("merge-with-two-branches-conflict");
    let base = repo.rev_parse_single("main^{tree}").unwrap();
    let a = repo.rev_parse_single("A^{tree}").unwrap();
    let b = repo.rev_parse_single("B^{tree}").unwrap();
    assert_eq!(repo.run(|repo| repo.merges_cleanly(base, a, b)), Ok(false));
    assert_eq!(repo.run(|repo| repo.merges_cleanly(base, a, a)), Ok(true));
    assert_eq!(repo.run(|repo| repo.merges_cleanly(base, base, b)), Ok(true));
    assert_eq!(repo.run(|repo| repo.merges_cleanly(base, b, base)), Ok(true));
}

#[test]
fn merge_options_are_as_documented() {
    let repo = Repository::new();
    let everything = TreatAsUnresolved {
        content_merge: ContentMerge::ForcedResolution,
        tree_merge: TreeMergeKind::ForcedResolution,
    };
    assert_eq!(TreatAsUnresolved::forced_resolution(), everything);
    assert_eq!(
        repo.merge_options_force_ours(),
        MergeOptions {
            tree_favor: Some(TreeFavor::Ours),
            file_favor: Some(FileFavor::Ours),
            fail_on_conflict: None,
            renames: RenameTracking::AsConfigured,
        }
    );
    let fail_fast = MergeOptions {
        tree_favor: None,
        file_favor: None,
        fail_on_conflict: Some(everything),
        renames: RenameTracking::AsConfigured,
    };
    assert_eq!(repo.merge_options_fail_fast(), (fail_fast, everything));
    assert_eq!(
        repo.merge_options_no_rewrites_fail_fast(),
        (MergeOptions { renames: RenameTracking::Disabled, ..fail_fast }, everything)
    );
    let labels = repo.default_merge_labels();
    assert_eq!(
        (labels.ancestor(), labels.current(), labels.other()),
        (Some("base"), Some("ours"), Some("theirs"))
    );
    assert_eq!(MergeLabels::Unnamed.ancestor(), None);
}

#[test]
fn a_newer_answer_replaces_an_older_one() {
    let mut repo = Repository::new();
    let (commit, one, two) = (oid("1"), oid("2"), oid("3"));
    let kind = TreeKind::AutoResolution;
    assert_eq!(repo.tree(commit, kind), Err(Stop::Unknown(Query::Tree { commit, kind })));
    repo.trees.push(TreeFact { commit, kind, tree: one });
    assert_eq!(repo.tree(commit, kind), Ok(one));
    repo.trees.push(TreeFact { commit, kind, tree: two });
    assert_eq!(repo.tree(commit, kind), Ok(two));
    assert!(repo.tree(commit, TreeKind::Base).is_err());
}

//! The steps that an integration starts out with, and how steps are written down.
use branch_integration::integration::initial::{
    get_branch_tips_and_upstream, get_commits_until_merge_base,
    get_initial_integration_steps_for_branch, partition_into_steps,
};
use branch_integration::integration::steps::{
    squash_line, InteractiveIntegration, InteractiveIntegrationStep,
};
use branch_integration::object_id::ObjectId;
use branch_integration::repository::{
    ChangeIdFact, FirstParentsFact, MergeBaseFact, Query, ReferenceFact, Repository, TrackingFact,
};
use branch_integration::stop::{Failure, Stop};

fn oid(hex: &str) -> ObjectId {
    let id = gix::ObjectId::from_hex(hex.as_bytes()).expect("valid object id");
    ObjectId { bytes: id.as_slice().try_into().expect("twenty bytes") }
}

/// A commit by its abbreviated id.
fn short(hex: &str) -> ObjectId {
    oid(&format!("{hex:0<40}"))
}

#[test]
fn interactive_integration_step_display_is_stable() {
    let parent = oid("1111111111111111111111111111111111111111");
    let squash_parent = oid("2222222222222222222222222222222222222222");
    let squash_child = oid("3333333333333333333333333333333333333333");
    let upstream_child = oid("4444444444444444444444444444444444444444");

    let skip = InteractiveIntegrationStep::Skip { commit_id: parent };
    assert_eq!(skip.to_string(), format!("skip {}", "1".repeat(40)));

    let pick = InteractiveIntegrationStep::Pick { commit_id: parent };
    assert_eq!(pick.to_string(), format!("pick {}", "1".repeat(40)));

    let pick_upstream = InteractiveIntegrationStep::PickUpstream { commit_id: upstream_child };
    assert_eq!(pick_upstream.to_string(), format!("pick-upstream {}", "4".repeat(40)));

    let squash_without_message = InteractiveIntegrationStep::Squash {
        commits: vec![squash_parent, squash_child],
        message: None,
    };
    assert_eq!(
        squash_without_message.to_string(),
        format!("squash {} {}", "2".repeat(40), "3".repeat(40))
    );

    let squash_with_message = InteractiveIntegrationStep::Squash {
        commits: vec![squash_parent, squash_child],
        message: Some("hello \"world\"".to_string()),
    };
    assert_eq!(
        squash_with_message.to_string(),
        format!(
            "squash {} {} | message=\"hello \\\"world\\\"\"",
            "2".repeat(40),
            "3".repeat(40)
        )
    );
}

#[test]
fn an_integration_is_written_line_by_line() {
    let integration = InteractiveIntegration {
        steps: vec![
            InteractiveIntegrationStep::Pick {
                commit_id: oid("0123456789abcdef0123456789abcdef01234567"),
            },
            InteractiveIntegrationStep::Squash { commits: vec![], message: Some("a\nb".into()) },
        ],
        merge_base: oid("fedcba9876543210fedcba9876543210fedcba98"),
    };
    assert_eq!(
        integration.to_string(),
        "merge-base fedcba9876543210fedcba9876543210fedcba98\n\
         pick 0123456789abcdef0123456789abcdef01234567\n\
         squash | message=\"a\\nb\"\n"
    );
    assert_eq!(squash_line(&vec![], Some("as it is")), "squash | message=as it is");
    assert_eq!(squash_line(&vec![], None), "squash");
    let empty = InteractiveIntegration { steps: vec![], merge_base: short("1") };
    assert_eq!(empty.to_string(), format!("merge-base 1{}\n", "0".repeat(39)));
}

/// A local branch `refs/heads/A` and its upstream, with first parents only.
struct World {
    /// Commits from child to parent, with the change that each is a version of.
    local: Vec<(ObjectId, &'static str)>,
    upstream: Vec<(ObjectId, &'static str)>,
    base: Option<ObjectId>,
    local_branch: bool,
    tracking: bool,
    tracking_branch: bool,
}

impl World {
    fn new(
        local: &[(&'static str, &'static str)],
        upstream: &[(&'static str, &'static str)],
        base: &'static str,
    ) -> Self {
        let read = |list: &[(&'static str, &'static str)]| {
            list.iter().map(|(hex, change)| (short(hex), *change)).collect()
        };
        World {
            local: read(local),
            upstream: read(upstream),
            base: Some(short(base)),
            local_branch: true,
            tracking: true,
            tracking_branch: true,
        }
    }

    fn tip(&self, commits: &[(ObjectId, &'static str)]) -> ObjectId {
        commits.first().map(|(id, _)| *id).or(self.base).expect("a tip")
    }

    fn answer(&self, query: Query, repo: &mut Repository) {
        match query {
            Query::Reference { name } => {
                let tip = match name.as_slice() {
                    b"refs/heads/A" if self.local_branch => Some(self.tip(&self.local)),
                    b"refs/remotes/origin/A" if self.tracking_branch => {
                        Some(self.tip(&self.upstream))
                    }
                    _ => None,
                };
                repo.references.push(ReferenceFact { name, tip });
            }
            Query::TrackingBranch { name } => {
                let tracking =
                    if self.tracking { Some(b"refs/remotes/origin/A".to_vec()) } else { None };
                repo.tracking_branches.push(TrackingFact { name, tracking });
            }
            Query::MergeBase { one, two } => {
                repo.merge_bases.push(MergeBaseFact { one, two, base: self.base });
            }
            Query::FirstParents { tip, hidden } => {
                assert_eq!(Some(hidden), self.base);
                let list = if tip == self.tip(&self.local) { &self.local } else { &self.upstream };
                let commits = list.iter().map(|(id, _)| *id).collect();
                repo.first_parents.push(FirstParentsFact { tip, hidden, commits });
            }
            Query::ChangeId { commit } => {
                let (_, change) = self
                    .local
                    .iter()
                    .chain(&self.upstream)
                    .find(|(id, _)| *id == commit)
                    .expect("known commit");
                repo.change_ids.push(ChangeIdFact { commit, change_id: change.to_string() });
            }
            other => panic!("unexpected question: {other:?}"),
        }
    }

    fn run<T>(&self, operation: impl Fn(&Repository) -> Result<T, Stop>) -> Result<T, Failure> {
        let mut repo = Repository::new();
        for _ in 0..100 {
            match operation(&repo) {
                Ok(value) => return Ok(value),
                Err(Stop::Unknown(query)) => self.answer(query, &mut repo),
                Err(Stop::Failed(failure)) => return Err(failure),
                Err(Stop::Pending(command)) => panic!("no editor is used: {command:?}"),
            }
        }
        panic!("the operation keeps asking");
    }

    fn steps(&self) -> Result<InteractiveIntegration, Failure> {
        self.run(|repo| get_initial_integration_steps_for_branch(b"refs/heads/A", repo))
    }
}

fn pick_step_ids(steps: &[InteractiveIntegrationStep]) -> Vec<ObjectId> {
    steps
        .iter()
        .map(|step| match step {
            InteractiveIntegrationStep::Pick { commit_id, .. }
            | InteractiveIntegrationStep::Skip { commit_id, .. }
            | InteractiveIntegrationStep::PickUpstream { commit_id, .. } => *commit_id,
            InteractiveIntegrationStep::Squash { commits, .. } => {
                *commits.last().expect("squash step should contain commits")
            }
        })
        .collect()
}

#[test]
fn errors_when_branch_has_no_tracking_branch() {
    let mut repo = World::new(&[("7f389ed", "add 10 to the beginning")], &[], "ff045ef");
    repo.tracking = false;

    let err = repo.steps().expect_err("branch without tracking must fail");

    assert!(
        err.message().contains("has no tracking branch"),
        "unexpected error: {err:?}"
    );
    assert_eq!(err.message(), "Branch 'refs/heads/A' has no tracking branch");
}

#[test]
fn partitions_diverged_branch_into_local_then_remote() {
    let repo = World::new(
        &[("1a265a4", "local change in A")],
        &[("89cc2d3", "change in A")],
        "d79bba9",
    );

    let steps = repo.steps().unwrap();

    let local_tip = short("1a265a4");
    let upstream_tip = short("89cc2d3");
    let step_ids = pick_step_ids(&steps.steps);

    assert_eq!(
        step_ids,
        vec![local_tip, upstream_tip],
        "expected local-only first, then remote-only for diverged history"
    );
    assert_eq!(steps.merge_base, short("d79bba9"));
    assert_eq!(
        steps.steps,
        vec![
            InteractiveIntegrationStep::Pick { commit_id: local_tip },
            InteractiveIntegrationStep::PickUpstream { commit_id: upstream_tip },
        ]
    );
}

#[test]
fn matches_rewritten_commit_by_change_id_and_keeps_order() {
    let repo = World::new(
        &[("e9c9d74", "A2"), ("550b6ac", "rewritten A1")],
        &[("ad92cce", "A2"), ("e1f216e", "A1")],
        "fafd9d0",
    );

    let steps = repo.steps().unwrap();

    let local_only = short("550b6ac");
    let remote_only = short("e1f216e");
    let local_and_remote = short("e9c9d74");
    let step_ids = pick_step_ids(&steps.steps);

    assert_eq!(
        step_ids,
        vec![local_only, remote_only, local_and_remote],
        "expected order local-only, remote-only, local-and-remote"
    );
}

#[test]
fn a_commit_on_both_sides_is_kept_once() {
    let repo = World::new(
        &[("a3", "three"), ("a2", "two"), ("a1", "one")],
        &[("b2", "other"), ("a2", "two"), ("a1", "one")],
        "f",
    );
    assert_eq!(
        repo.steps().unwrap().steps,
        vec![
            InteractiveIntegrationStep::Pick { commit_id: short("a3") },
            InteractiveIntegrationStep::PickUpstream { commit_id: short("b2") },
            InteractiveIntegrationStep::Pick { commit_id: short("a2") },
            InteractiveIntegrationStep::Pick { commit_id: short("a1") },
        ]
    );
}

#[test]
fn the_upstream_version_closest_to_the_tip_is_matched() {
    let repo = World::new(
        &[("a1", "change")],
        &[("b3", "change"), ("b2", "else"), ("b1", "change")],
        "f",
    );
    assert_eq!(
        repo.steps().unwrap().steps,
        vec![
            InteractiveIntegrationStep::PickUpstream { commit_id: short("b2") },
            InteractiveIntegrationStep::PickUpstream { commit_id: short("b1") },
            InteractiveIntegrationStep::Pick { commit_id: short("a1") },
        ]
    );
}

#[test]
fn a_local_commit_that_is_upstream_needs_no_change_id() {
    let mut repo = Repository::new();
    let (tip, base) = (short("a1"), short("f"));
    for name in [b"refs/heads/A".to_vec(), b"up".to_vec()] {
        repo.references.push(ReferenceFact { name, tip: Some(tip) });
    }
    repo.tracking_branches.push(TrackingFact {
        name: b"refs/heads/A".to_vec(),
        tracking: Some(b"up".to_vec()),
    });
    repo.merge_bases.push(MergeBaseFact { one: tip, two: tip, base: Some(base) });
    repo.first_parents.push(FirstParentsFact { tip, hidden: base, commits: vec![tip] });
    repo.change_ids.push(ChangeIdFact { commit: tip, change_id: "change".into() });
    let steps = get_initial_integration_steps_for_branch(b"refs/heads/A", &repo).unwrap();
    assert_eq!(steps.steps, vec![InteractiveIntegrationStep::Pick { commit_id: tip }]);
}

#[test]
fn nothing_is_brought_in_from_an_integrated_upstream() {
    let repo = World::new(&[("a2", "two"), ("a1", "one")], &[("a1", "one")], "f");
    assert_eq!(
        repo.steps().unwrap().steps,
        vec![
            InteractiveIntegrationStep::Pick { commit_id: short("a2") },
            InteractiveIntegrationStep::Pick { commit_id: short("a1") },
        ]
    );
}

#[test]
fn given_counterparts_divide_the_commits() {
    let (a, b, c, u, v) = (short("a"), short("b"), short("c"), short("d"), short("e"));
    let steps = partition_into_steps(&vec![a, b, c], &vec![u, v], &vec![None, Some(u), None]);
    assert_eq!(
        steps,
        vec![
            InteractiveIntegrationStep::Pick { commit_id: a },
            InteractiveIntegrationStep::Pick { commit_id: c },
            InteractiveIntegrationStep::PickUpstream { commit_id: v },
            InteractiveIntegrationStep::Pick { commit_id: b },
        ]
    );
}

#[test]
fn commits_are_listed_down_to_the_merge_base() {
    let world = World::new(&[("a2", "2"), ("a1", "1")], &[("b1", "3")], "f");
    let listed = world
        .run(|repo| {
            let (local, upstream, base) = get_commits_until_merge_base(b"refs/heads/A", repo)?;
            Ok((local.clone(), upstream.clone(), base))
        })
        .unwrap();
    assert_eq!(listed, (vec![short("a2"), short("a1")], vec![short("b1")], short("f")));
    let tips = world
        .run(|repo| get_branch_tips_and_upstream(b"refs/heads/A", repo))
        .unwrap();
    assert_eq!(tips, (short("a2"), b"refs/remotes/origin/A".to_vec(), short("b1")));
}

#[test]
fn missing_branches_and_bases_are_reported() {
    let mut world = World::new(&[("a1", "1")], &[("b1", "2")], "f");
    world.base = None;
    let failure = world.steps().unwrap_err();
    assert_eq!(
        failure,
        Failure::NoMergeBase {
            name: b"refs/heads/A".to_vec(),
            tracking: b"refs/remotes/origin/A".to_vec(),
        }
    );
    assert_eq!(
        failure.message(),
        "No merge-base found between 'refs/heads/A' and its tracking branch 'refs/remotes/origin/A'"
    );

    world.tracking_branch = false;
    let failure = world.steps().unwrap_err();
    assert_eq!(
        failure.message(),
        "Couldn't find tracking branch 'refs/remotes/origin/A' for local branch 'refs/heads/A'"
    );

    world.local_branch = false;
    let failure = world.steps().unwrap_err();
    assert_eq!(failure, Failure::LocalBranchNotFound { name: b"refs/heads/A".to_vec() });
    assert_eq!(failure.message(), "Couldn't find local branch 'refs/heads/A'");
}

#[test]
fn names_that_are_not_utf8_are_shown_all_the_same() {
    let failure = Failure::LocalBranchNotFound { name: b"refs/heads/\xff\xc3\xa4".to_vec() };
    assert_eq!(failure.message(), "Couldn't find local branch 'refs/heads/\u{fffd}\u{e4}'");
    assert_eq!(
        failure.message_with_names("here", "there"),
        "Couldn't find local branch 'here'"
    );
}

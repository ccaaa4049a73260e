//! Who is recorded as author and committer, and when.
use branch_integration::object_id::ObjectId;
use branch_integration::repository::{Query, Repository};
use branch_integration::signature::{
    author_at, commit_time, commit_time_or_local, committer_at, committer_signature, Actor, Clock,
    Signature, Time,
};
use branch_integration::stop::{Failure, Stop};

fn actor(name: &str, time: &str) -> Actor {
    Actor {
        name: name.as_bytes().to_vec(),
        email: format!("{name}@example.com").into_bytes(),
        time: time.to_string(),
    }
}

fn signature(name: &str, email: &str, seconds: i64, offset: i32) -> Signature {
    Signature {
        name: name.as_bytes().to_vec(),
        email: email.as_bytes().to_vec(),
        time: Time { seconds, offset },
    }
}

const CLOCK: Clock = Clock {
    seconds: 1_700_000_000,
    nanos: 0,
    local: Time { seconds: 1_700_000_000, offset: 3600 },
};

fn configured() -> Repository {
    let mut repo = Repository::new();
    repo.author = Some(Some(actor("author", "1660874655 +0800")));
    repo.gitbutler_committer = Some(None);
    repo.committer = Some(Some(actor("committer", "1745582210 +0200")));
    repo.committer_date = Some(None);
    repo.clock = Some(CLOCK);
    repo
}

#[test]
fn author_and_committer_are_as_configured() {
    let repo = configured();
    assert_eq!(
        repo.commit_signatures(),
        Ok((
            signature("author", "author@example.com", 1660874655, 8 * 3600),
            signature("committer", "committer@example.com", 1745582210, 2 * 3600),
        ))
    );
}

#[test]
fn an_author_must_be_configured() {
    let mut repo = configured();
    repo.author = Some(None);
    assert_eq!(repo.commit_signatures(), Err(Stop::Failed(Failure::AuthorMissing)));
    assert_eq!(Failure::AuthorMissing.message(), "No author is configured in Git");
}

#[test]
fn an_unreadable_author_time_is_the_start_of_1970() {
    let mut repo = configured();
    repo.author = Some(Some(actor("author", "no time")));
    let (author, _) = repo.commit_signatures().unwrap();
    assert_eq!(author, signature("author", "author@example.com", 0, 0));
    assert_eq!(author_at(&actor("a", ""), None), signature("a", "a@example.com", 0, 0));
    assert_eq!(
        author_at(&actor("a", ""), Some(Time { seconds: 5, offset: 6 })),
        signature("a", "a@example.com", 5, 6)
    );
}

#[test]
fn gitbutler_commits_if_asked() {
    let mut repo = configured();
    repo.gitbutler_committer = Some(Some(true));
    let (_, committer) = repo.commit_signatures().unwrap();
    assert_eq!(
        committer,
        signature("GitButler", "gitbutler@gitbutler.com", 1_700_000_000, 3600)
    );
    repo.gitbutler_committer = Some(Some(false));
    let (_, committer) = repo.commit_signatures().unwrap();
    assert_eq!(committer.name, b"committer");
}

#[test]
fn gitbutler_commits_if_alone() {
    let gitbutler = signature("GitButler", "gitbutler@gitbutler.com", 1_700_000_000, 3600);
    let mut repo = configured();
    repo.committer = Some(None);
    assert_eq!(repo.commit_signatures().unwrap().1, gitbutler);
    repo.committer = Some(Some(actor("committer", "no time")));
    assert_eq!(repo.commit_signatures().unwrap().1, gitbutler);
    assert_eq!(committer_at(&actor("c", ""), None), None);
    assert_eq!(
        committer_at(&actor("c", ""), Some(Time { seconds: 5, offset: 6 })),
        Some(signature("c", "c@example.com", 5, 6))
    );
}

#[test]
fn an_overriding_date_prevails() {
    let mut repo = configured();
    repo.committer_date = Some(Some("2000-01-01 00:00:00 +0000".to_string()));
    assert_eq!(
        committer_signature(&repo),
        Ok(signature("GitButler", "gitbutler@gitbutler.com", 946684800, 0))
    );
    repo.committer_date = Some(Some("not a date".to_string()));
    assert_eq!(
        committer_signature(&repo),
        Ok(signature("GitButler", "gitbutler@gitbutler.com", 1_700_000_000, 3600))
    );
}

#[test]
fn dates_may_be_relative_to_the_current_time() {
    assert_eq!(
        commit_time(Some("2 minutes ago"), CLOCK),
        Time { seconds: 1_700_000_000 - 120, offset: 0 }
    );
    assert_eq!(commit_time(Some("1700000001 +0100"), CLOCK).seconds, 1_700_000_001);
    assert_eq!(commit_time(None, CLOCK), CLOCK.local);
    // Relative to a time that no clock shows there are no dates.
    let far = Clock { seconds: u64::MAX, nanos: u32::MAX, ..CLOCK };
    assert_eq!(commit_time(Some("2 minutes ago"), far), CLOCK.local);
    assert_eq!(commit_time_or_local(None, CLOCK), CLOCK.local);
    let time = Time { seconds: 1, offset: 2 };
    assert_eq!(commit_time_or_local(Some(time), CLOCK), time);
}

#[test]
fn questions_are_asked_in_turn() {
    let mut repo = Repository::new();
    assert_eq!(repo.commit_signatures(), Err(Stop::Unknown(Query::Author)));
    repo.author = Some(Some(actor("author", "1 +0000")));
    assert_eq!(repo.commit_signatures(), Err(Stop::Unknown(Query::GitbutlerCommitter)));
    repo.gitbutler_committer = Some(None);
    assert_eq!(repo.commit_signatures(), Err(Stop::Unknown(Query::Committer)));
    repo.committer = Some(None);
    assert_eq!(repo.commit_signatures(), Err(Stop::Unknown(Query::CommitterDate)));
    repo.committer_date = Some(None);
    assert_eq!(repo.commit_signatures(), Err(Stop::Unknown(Query::Clock)));
    repo.clock = Some(CLOCK);
    assert!(repo.commit_signatures().is_ok());
}

#[test]
fn ids_are_written_in_hexadecimal() {
    let mut bytes = [0u8; 20];
    for (n, byte) in bytes.iter_mut().enumerate() {
        *byte = 13 * n as u8;
    }
    assert_eq!(
        ObjectId { bytes }.to_hex(),
        "000d1a2734414e5b6875828f9ca9b6c3d0ddeaf7"
    );
}

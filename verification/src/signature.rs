//! Who is recorded as author and committer, and when.
use crate::bytes::copy_bytes;
use crate::repository::Repository;
use crate::stop::{Failure, FailureView, Stop, StopView};
use vstd::prelude::*;
use vstd::utf8::encode_utf8;

verus! {

/// A point in time with the offset of a time zone, both in seconds.
#[derive(Clone, Copy, Debug, PartialEq, Eq, Structural)]
pub struct Time {
    pub seconds: i64,
    pub offset: i32,
}

/// A person as configured, with the time as text in the format of commit headers.
#[derive(Debug, PartialEq, Eq)]
pub struct Actor {
    pub name: Vec<u8>,
    pub email: Vec<u8>,
    pub time: String,
}

/// An [`Actor`] with its texts as sequences.
pub struct ActorView {
    pub name: Seq<u8>,
    pub email: Seq<u8>,
    pub time: Seq<char>,
}

impl View for Actor {
    type V = ActorView;

    open spec fn view(&self) -> ActorView {
        ActorView { name: self.name@, email: self.email@, time: self.time@ }
    }
}

/// A person at a point in time.
#[derive(Debug, PartialEq, Eq)]
pub struct Signature {
    pub name: Vec<u8>,
    pub email: Vec<u8>,
    pub time: Time,
}

/// A [`Signature`] with its texts as sequences.
pub struct SignatureView {
    pub name: Seq<u8>,
    pub email: Seq<u8>,
    pub time: Time,
}

impl View for Signature {
    type V = SignatureView;

    open spec fn view(&self) -> SignatureView {
        SignatureView { name: self.name@, email: self.email@, time: self.time }
    }
}

/// The current time: what has passed since 1970, and the same as local time.
#[derive(Clone, Copy, Debug, PartialEq, Eq, Structural)]
pub struct Clock {
    pub seconds: u64,
    pub nanos: u32,
    pub local: Time,
}

/// The time that a text in the format of commit headers stands for, if it stands for one.
pub uninterp spec fn header_time(text: Seq<char>) -> Option<Time>;

/// The time that a date in any of Git's formats stands for, if it stands for one, where the
/// current time lies so many seconds and nanoseconds after the start of 1970.
pub uninterp spec fn parsed_date(date: Seq<char>, seconds: u64, nanos: u32) -> Option<Time>;

/// Calls `gix::date::parse_header`, by which `gix::actor::SignatureRef` reads its time. What it
/// returns is named; the format is not stated.
#[verifier::external_body]
fn parse_header_time(text: &str) -> (r: Option<Time>)
    ensures
        r == header_time(text@),
{
    let time = gix::date::parse_header(text)?;
    Some(Time { seconds: time.seconds, offset: time.offset })
}

/// Calls `gix::date::parse`, which reads dates relative to the current time in UTC. What it
/// returns is named; the formats are not stated. A current time that the system's clock could
/// not show is left out, which like one that lies too far ahead makes relative dates no dates.
#[verifier::external_body]
fn parse_date(date: &str, seconds: u64, nanos: u32) -> (r: Option<Time>)
    ensures
        r == parsed_date(date@, seconds, nanos),
{
    let passed = std::time::Duration::from_secs(seconds)
        .saturating_add(std::time::Duration::from_nanos(nanos.into()));
    let time = gix::date::parse(date, std::time::UNIX_EPOCH.checked_add(passed)).ok()?;
    Some(Time { seconds: time.seconds, offset: time.offset })
}

/// The name under which GitButler commits.
pub const GITBUTLER_COMMIT_AUTHOR_NAME: &'static str = "GitButler";

/// The address under which GitButler commits.
pub const GITBUTLER_COMMIT_AUTHOR_EMAIL: &'static str = "gitbutler@gitbutler.com";

/// The time of a commit: that of the overriding date if it is one, otherwise the local time.
pub open spec fn time_of_commit(overriding_date: Option<Seq<char>>, clock: Clock) -> Time {
    match overriding_date {
        Some(date) => time_or_local(parsed_date(date, clock.seconds, clock.nanos), clock),
        None => clock.local,
    }
}

/// A time if there is one, otherwise the local time.
pub open spec fn time_or_local(time: Option<Time>, clock: Clock) -> Time {
    match time {
        Some(time) => time,
        None => clock.local,
    }
}

/// The signature of GitButler as committer.
pub open spec fn gitbutler_signature(repo: &Repository) -> Result<SignatureView, StopView> {
    match repo.spec_committer_date() {
        Err(stop) => Err(stop),
        Ok(date) => match repo.spec_clock() {
            Err(stop) => Err(stop),
            Ok(clock) => Ok(
                SignatureView {
                    name: encode_utf8(GITBUTLER_COMMIT_AUTHOR_NAME@),
                    email: encode_utf8(GITBUTLER_COMMIT_AUTHOR_EMAIL@),
                    time: time_of_commit(date, clock),
                },
            ),
        },
    }
}

/// The signature of an author, at the start of 1970 if the time is unreadable.
pub open spec fn signature_of_author(author: ActorView, time: Option<Time>) -> SignatureView {
    SignatureView {
        name: author.name,
        email: author.email,
        time: match time {
            Some(time) => time,
            None => Time { seconds: 0, offset: 0 },
        },
    }
}

/// The signature of a committer, if its time is readable.
pub open spec fn signature_of_committer(committer: ActorView, time: Option<Time>) -> Option<
    SignatureView,
> {
    match time {
        Some(time) => Some(
            SignatureView { name: committer.name, email: committer.email, time },
        ),
        None => None,
    }
}

/// The signature of the configured committer, if there is one whose time is readable.
pub open spec fn configured_signature(repo: &Repository) -> Result<
    Option<SignatureView>,
    StopView,
> {
    match repo.spec_committer() {
        Err(stop) => Err(stop),
        Ok(None) => Ok(None),
        Ok(Some(committer)) => Ok(signature_of_committer(committer, header_time(committer.time))),
    }
}

/// The committer: GitButler if the configuration asks for that or has none to offer.
pub open spec fn committer_of(repo: &Repository) -> Result<SignatureView, StopView> {
    match repo.spec_gitbutler_committer() {
        Err(stop) => Err(stop),
        Ok(Some(true)) => gitbutler_signature(repo),
        Ok(_) => match configured_signature(repo) {
            Err(stop) => Err(stop),
            Ok(Some(signature)) => Ok(signature),
            Ok(None) => gitbutler_signature(repo),
        },
    }
}

/// The author and the committer of a new commit.
pub open spec fn signatures(repo: &Repository) -> Result<(SignatureView, SignatureView), StopView> {
    match repo.spec_author() {
        Err(stop) => Err(stop),
        Ok(None) => Err(StopView::Failed(FailureView::AuthorMissing)),
        Ok(Some(author)) => match committer_of(repo) {
            Err(stop) => Err(stop),
            Ok(committer) => Ok(
                (signature_of_author(author, header_time(author.time)), committer),
            ),
        },
    }
}

/// A time if there is one, otherwise the local time.
pub fn commit_time_or_local(time: Option<Time>, clock: Clock) -> (r: Time)
    ensures
        r == time_or_local(time, clock),
        time is None ==> r == clock.local,
        time is Some ==> Some(r) == time,
{
    match time {
        Some(time) => time,
        None => clock.local,
    }
}

/// The time of a commit: that of the overriding date if it is one, otherwise the local time.
pub fn commit_time(overriding_date: Option<&str>, clock: Clock) -> (r: Time)
    ensures
        r == time_of_commit(
            match overriding_date {
                Some(date) => Some(date@),
                None => None,
            },
            clock,
        ),
{
    match overriding_date {
        Some(date) => commit_time_or_local(
            parse_date(date, clock.seconds, clock.nanos),
            clock,
        ),
        None => clock.local,
    }
}

/// The signature of GitButler as committer.
pub fn committer_signature(repo: &Repository) -> (r: Result<Signature, Stop>)
    ensures
        match gitbutler_signature(repo) {
            Ok(signature) => r is Ok && r->Ok_0@ == signature,
            Err(stop) => r is Err && r->Err_0@ == stop,
        },
{
    let date = repo.overriding_committer_date()?;
    let clock = repo.current_time()?;
    Ok(
        Signature {
            name: copy_bytes(GITBUTLER_COMMIT_AUTHOR_NAME.as_bytes()),
            email: copy_bytes(GITBUTLER_COMMIT_AUTHOR_EMAIL.as_bytes()),
            time: commit_time(date, clock),
        },
    )
}

/// The signature of an author, at the start of 1970 if the time is unreadable.
pub fn author_at(author: &Actor, time: Option<Time>) -> (r: Signature)
    ensures
        r@ == signature_of_author(author@, time),
        r.name@ == author.name@,
        r.email@ == author.email@,
{
    let time = match time {
        Some(time) => time,
        None => Time { seconds: 0, offset: 0 },
    };
    Signature {
        name: copy_bytes(author.name.as_slice()),
        email: copy_bytes(author.email.as_slice()),
        time,
    }
}

/// The signature of a committer, if its time is readable.
pub fn committer_at(committer: &Actor, time: Option<Time>) -> (r: Option<Signature>)
    ensures
        match signature_of_committer(committer@, time) {
            Some(signature) => r is Some && r->Some_0@ == signature,
            None => r is None,
        },
        r is Some <==> time is Some,
        r matches Some(found) ==> {
            &&& found.name@ == committer.name@
            &&& found.email@ == committer.email@
            &&& Some(found.time) == time
        },
{
    match time {
        Some(time) => Some(
            Signature {
                name: copy_bytes(committer.name.as_slice()),
                email: copy_bytes(committer.email.as_slice()),
                time,
            },
        ),
        None => None,
    }
}

impl Repository {
    /// The signature of the configured committer, if there is one whose time is readable.
    fn configured_committer_signature(&self) -> (r: Result<Option<Signature>, Stop>)
        ensures
            match configured_signature(self) {
                Ok(Some(signature)) => r matches Ok(Some(found)) && found@ == signature,
                Ok(None) => r matches Ok(None),
                Err(stop) => r is Err && r->Err_0@ == stop,
            },
    {
        match self.configured_committer()? {
            Some(committer) => Ok(
                committer_at(committer, parse_header_time(committer.time.as_str())),
            ),
            None => Ok(None),
        }
    }

    /// The committer: GitButler if the configuration asks for that or has none to offer.
    fn committer_for_commit(&self) -> (r: Result<Signature, Stop>)
        ensures
            match committer_of(self) {
                Ok(signature) => r is Ok && r->Ok_0@ == signature,
                Err(stop) => r is Err && r->Err_0@ == stop,
            },
    {
        let commit_as_gitbutler = match self.configured_gitbutler_committer()? {
            Some(flag) => flag,
            None => false,
        };
        if commit_as_gitbutler {
            return committer_signature(self);
        }
        match self.configured_committer_signature()? {
            Some(signature) => Ok(signature),
            None => committer_signature(self),
        }
    }

    /// The author and the committer of a new commit, as configured in Git.
    pub fn commit_signatures(&self) -> (r: Result<(Signature, Signature), Stop>)
        ensures
            match signatures(self) {
                Ok((author, committer)) => {
                    &&& r is Ok
                    &&& r->Ok_0.0@ == author
                    &&& r->Ok_0.1@ == committer
                },
                Err(stop) => r is Err && r->Err_0@ == stop,
            },
    {
        let author = match self.configured_author()? {
            Some(author) => author,
            None => return Err(Stop::Failed(Failure::AuthorMissing)),
        };
        let committer = self.committer_for_commit()?;
        Ok((author_at(author, parse_header_time(author.time.as_str())), committer))
    }
}

} // verus!

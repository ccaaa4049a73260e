//! What holds of the signatures of new commits.
use crate::repository::Repository;
use crate::signature::{
    configured_signature, gitbutler_signature, header_time, parsed_date, signature_of_author,
    signature_of_committer, signatures, time_of_commit, Actor, ActorView, Clock, SignatureView,
    Time, GITBUTLER_COMMIT_AUTHOR_EMAIL, GITBUTLER_COMMIT_AUTHOR_NAME,
};
use crate::stop::{FailureView, StopView};
use vstd::prelude::*;
use vstd::utf8::encode_utf8;

verus! {

/// Signatures are refused exactly if no author is configured.
pub proof fn law_signatures_need_an_author(repo: &Repository, failure: FailureView)
    ensures
        signatures(repo) == Err::<(SignatureView, SignatureView), StopView>(
            StopView::Failed(failure),
        ) <==> repo.spec_author() is Ok && repo.spec_author()->Ok_0 is None && failure
            == FailureView::AuthorMissing,
{
}

/// The author is the configured one.
pub proof fn law_author_is_the_configured_one(repo: &Repository)
    ensures
        signatures(repo) matches Ok((author, _)) ==> repo.spec_author() matches Ok(Some(actor))
            && author.name == actor.name && author.email == actor.email,
{
}

/// GitButler commits if the configuration asks for that, and also if it offers no committer with
/// a readable time; otherwise the configured committer does.
pub proof fn law_gitbutler_commits_if_asked_or_alone(repo: &Repository)
    ensures
        signatures(repo) matches Ok((_, committer)) ==> if repo.spec_gitbutler_committer() == Ok::<
            _,
            StopView,
        >(Some(true)) || configured_signature(repo) == Ok::<Option<SignatureView>, StopView>(None) {
            &&& committer.name == encode_utf8(GITBUTLER_COMMIT_AUTHOR_NAME@)
            &&& committer.email == encode_utf8(GITBUTLER_COMMIT_AUTHOR_EMAIL@)
        } else {
            configured_signature(repo) == Ok::<_, StopView>(Some(committer))
        },
{
}

/// A readable overriding date is the time of a commit whatever the local time; without one it is
/// the local time.
pub proof fn law_overriding_date_prevails(date: Seq<char>, clock: Clock, local: Time)
    ensures
        parsed_date(date, clock.seconds, clock.nanos) matches Some(time) ==> time_of_commit(
            Some(date),
            Clock { local, ..clock },
        ) == time,
        parsed_date(date, clock.seconds, clock.nanos) is None ==> time_of_commit(
            Some(date),
            Clock { local, ..clock },
        ) == local,
        time_of_commit(None, Clock { local, ..clock }) == local,
{
}

/// Whether a signature is that of GitButler, at the time of a readable overriding date, or else at
/// the local time.
pub open spec fn is_gitbutlers(
    signature: SignatureView,
    date: Option<Option<String>>,
    clock: Option<Clock>,
) -> bool {
    &&& signature.name == encode_utf8("GitButler"@)
    &&& signature.email == encode_utf8("gitbutler@gitbutler.com"@)
    &&& clock matches Some(clock) && match date {
        Some(Some(text)) => match parsed_date(text@, clock.seconds, clock.nanos) {
            Some(time) => signature.time == time,
            None => signature.time == clock.local,
        },
        Some(None) => signature.time == clock.local,
        None => false,
    }
}

/// Whether a signature is that of a configured person, at a time.
pub open spec fn is_of(signature: SignatureView, actor: Actor, time: Time) -> bool {
    &&& signature.name == actor.name@
    &&& signature.email == actor.email@
    &&& signature.time == time
}

/// GitButler signs as soon as the overriding date and the current time are known.
pub proof fn law_gitbutler_signs_at_the_time_of_the_commit(repo: &Repository)
    ensures
        repo.committer_date is Some && repo.clock is Some <==> gitbutler_signature(repo) is Ok,
        gitbutler_signature(repo) matches Ok(signature) ==> is_gitbutlers(
            signature,
            repo.committer_date,
            repo.clock,
        ),
{
}

/// The author signs as configured, at the configured time if it is readable, or else at the start
/// of 1970.
pub proof fn law_author_signs_at_the_configured_time(repo: &Repository, actor: Actor)
    requires
        repo.author == Some(Some(actor)),
    ensures
        signatures(repo) matches Ok((author, _)) ==> is_of(
            author,
            actor,
            match header_time(actor.time@) {
                Some(time) => time,
                None => Time { seconds: 0, offset: 0 },
            },
        ),
{
}

/// The committer is GitButler where the configuration asks for that, whoever is configured. Where
/// it does not ask for that, the configured person commits at a readable configured time, whatever
/// the date and the clock; and if there is none, GitButler does after all.
pub proof fn law_committer_signs_as_the_configuration_has_it(repo: &Repository, actor: Actor)
    requires
        repo.author matches Some(Some(_)),
        repo.gitbutler_committer is Some,
    ensures
        repo.gitbutler_committer == Some(Some(true)) ==> {
            &&& repo.committer_date is Some && repo.clock is Some <==> signatures(repo) is Ok
            &&& signatures(repo) matches Ok((_, committer)) ==> is_gitbutlers(
                committer,
                repo.committer_date,
                repo.clock,
            )
        },
        repo.gitbutler_committer != Some(Some(true)) && repo.committer == Some(Some(actor))
            ==> match header_time(actor.time@) {
            Some(time) => signatures(repo) matches Ok((_, committer)) && is_of(
                committer,
                actor,
                time,
            ),
            None => {
                &&& repo.committer_date is Some && repo.clock is Some <==> signatures(repo) is Ok
                &&& signatures(repo) matches Ok((_, committer)) ==> is_gitbutlers(
                    committer,
                    repo.committer_date,
                    repo.clock,
                )
            },
        },
        repo.gitbutler_committer != Some(Some(true)) && repo.committer == Some(None::<Actor>) ==> {
            &&& repo.committer_date is Some && repo.clock is Some <==> signatures(repo) is Ok
            &&& signatures(repo) matches Ok((_, committer)) ==> is_gitbutlers(
                committer,
                repo.committer_date,
                repo.clock,
            )
        },
        repo.gitbutler_committer != Some(Some(true)) && repo.committer is None ==> signatures(
            repo,
        ) is Err,
{
}

/// A person signs with the configured name and address. An author whose time is unreadable signs
/// at the start of 1970, and such a committer does not sign.
pub proof fn law_persons_sign_with_their_names(actor: ActorView, time: Option<Time>)
    ensures
        signature_of_author(actor, time).name == actor.name,
        signature_of_author(actor, time).email == actor.email,
        time matches Some(at) ==> signature_of_author(actor, time).time == at,
        time is None ==> signature_of_author(actor, time).time.seconds == 0
            && signature_of_author(actor, time).time.offset == 0,
        signature_of_committer(actor, time) is Some <==> time is Some,
        signature_of_committer(actor, time) matches Some(signature) ==> {
            &&& signature.name == actor.name
            &&& signature.email == actor.email
            &&& time == Some(signature.time)
        },
{
}

} // verus!

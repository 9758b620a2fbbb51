//! What a run asks for, and when: each action with the inputs on which it comes, and no others.

use vstd::prelude::*;
use vstd::utf8::encode_utf8;

use crate::api::{change_reply, forward_reply};
use crate::domain::domain_list;
use crate::forward::{canonical, forward_config, wanted_rules, ForwardErrorView};
use crate::json::{ascii_white_space, json_document, json_encoding};
use crate::known::{known_path, sha3_512};
use crate::search::{search_update, SearchUpdate};
use crate::session::{
    next, older_than, outdated, sent_config, ActionView, EventView, FailureView, Removal,
    SessionView, Stage,
};

verus! {

/// A run ends with nothing to do just where the record that it read is the digest of
/// NetworkManager's present configuration, Knot Resolver has not started since, and it is not told
/// to apply the configuration anyway.
pub proof fn law_up_to_date(s: SessionView, e: EventView)
    ensures
        next(s, e).1 is UpToDate <==> s.stage == Stage::NmKnown && e == EventView::Content(
            Some(sha3_512(s.nm)),
        ) && !s.changed && !s.options.always_apply,
{
}

/// A run reads a file for its contents just where it looks for the record of Knot Resolver's start,
/// then for that of NetworkManager's configuration, and then, where there is something to apply and
/// search domains are to be copied, at the system's resolver configuration.
pub proof fn law_read_file(s: SessionView, e: EventView, path: Seq<char>)
    ensures
        next(s, e).1 == ActionView::ReadFile(path) <==> {
            ||| s.stage == Stage::LastStarted && (e matches EventView::Content(Some(_))) && path
                == known_path(s.run_dir, s.started_path)
            ||| s.stage == Stage::LastStarted && e == EventView::Content(None) && path == known_path(
                s.run_dir,
                s.nm_path,
            )
            ||| s.stage == Stage::LastStartedKnown && e is Content && path == known_path(
                s.run_dir,
                s.nm_path,
            )
            ||| s.stage == Stage::NmKnown && e is Content && (e != EventView::Content(
                Some(sha3_512(s.nm)),
            ) || s.changed || s.options.always_apply) && s.options.copy_search && path
                == s.resolv_conf
        },
{
}

/// A run reads the list of domains just where there is something to apply, and the search domains
/// are not to be copied, are as wanted already, or have just been put in place.
pub proof fn law_read_text(s: SessionView, e: EventView, path: Seq<char>)
    ensures
        next(s, e).1 == ActionView::ReadText(path) <==> path == s.anti_path && {
            ||| s.stage == Stage::NmKnown && e is Content && (e != EventView::Content(
                Some(sha3_512(s.nm)),
            ) || s.changed || s.options.always_apply) && !s.options.copy_search
            ||| s.stage == Stage::ResolvConf && (e matches EventView::Content(Some(bytes))
                && search_update(bytes, s.search) is Unchanged)
            ||| s.stage == Stage::ResolvConfWritten && e == EventView::Written(true)
        },
{
}

/// A run writes a file just where the system's resolver configuration is to be replaced, with what
/// the update of the search domains gives; where Knot Resolver has the wanted rules or has taken
/// them, the digest of NetworkManager's configuration; and behind that, where Knot Resolver has
/// started, the digest of what it wrote then.
pub proof fn law_write(s: SessionView, e: EventView, path: Seq<char>, contents: Seq<u8>)
    ensures
        next(s, e).1 == (ActionView::Write { path, contents }) <==> {
            ||| s.stage == Stage::ResolvConf && path == s.resolv_conf && (
            e matches EventView::Content(Some(bytes)) && (search_update(
                bytes,
                s.search,
            ) matches SearchUpdate::Replaced(text) && contents == encode_utf8(text)))
            ||| s.stage == Stage::CurrentForward && path == known_path(s.run_dir, s.nm_path)
                && contents == sha3_512(s.nm) && (e matches EventView::Reply(Some(reply)) && (
            forward_reply(reply.0, reply.1) matches Ok(current) && canonical(current) == Ok::<
                _,
                ForwardErrorView,
            >(wanted_rules(s.servers, s.anti))))
            ||| s.stage == Stage::ForwardSent && path == known_path(s.run_dir, s.nm_path) && contents
                == sha3_512(s.nm) && (e matches EventView::Reply(Some(reply)) && change_reply(
                reply.0,
                reply.1,
            ) is Ok)
            ||| s.stage == Stage::NmRecorded && e == EventView::Written(true) && s.changed && path
                == known_path(s.run_dir, s.started_path) && (s.last_started matches Some(bytes)
                && contents == sha3_512(bytes))
        },
{
}

/// Knot Resolver is asked for its rules just where the list of domains could be read, and sent the
/// wanted ones just where its own are readable and differ.
pub proof fn law_requests(s: SessionView, e: EventView, body: Seq<u8>)
    ensures
        next(s, e).1 is GetForward <==> s.stage == Stage::AntiList && (
        e matches EventView::Text(Some(_))),
        next(s, e).1 == ActionView::PutForward(body) <==> s.stage == Stage::CurrentForward && body
            == json_encoding(forward_config(s.servers, s.anti)) && (e matches EventView::Reply(
            Some(reply),
        ) && (forward_reply(reply.0, reply.1) matches Ok(current) && (canonical(current) matches Ok(
            rules,
        ) && rules != wanted_rules(s.servers, s.anti)))),
{
}

/// The record of Knot Resolver's start is looked after just where there was no new start to record:
/// it is removed where it is more than 24 hours old, or its age cannot be told or lies ahead.
pub proof fn law_old_records(s: SessionView, e: EventView, path: Seq<char>)
    ensures
        next(s, e).1 == ActionView::Stat(path) <==> s.stage == Stage::NmRecorded && e
            == EventView::Written(true) && (s.last_started is None || !s.changed) && path
            == known_path(s.run_dir, s.started_path),
        next(s, e).1 == ActionView::Remove(path) <==> s.stage == Stage::KnownAge && path
            == known_path(s.run_dir, s.started_path) && (e matches EventView::Age(age) && (
        age matches Some(times) ==> times.0 > times.1 || times.1 - times.0 > 86_400_000_000_000)),
{
}

/// A run ends as applied just where the last thing to do is done: a new start is recorded, or the
/// record of the last is young enough, removed, or missing.
pub proof fn law_applied(s: SessionView, e: EventView)
    ensures
        next(s, e).1 is Applied <==> {
            ||| s.stage == Stage::LastStartedRecorded && e == EventView::Written(true)
            ||| s.stage == Stage::KnownAge && (e matches EventView::Age(Some(times)) && times.0
                <= times.1 && times.1 - times.0 <= 86_400_000_000_000)
            ||| s.stage == Stage::KnownRemoved && (e == EventView::Removal(Removal::Removed) || e
                == EventView::Removal(Removal::Missing))
        },
{
}

/// A run fails for the work that it asked for just where that work failed, and for an outcome out of
/// turn just where the outcome is of other work than it asked for.
pub proof fn law_failed_work(s: SessionView, e: EventView)
    ensures
        next(s, e).1 == ActionView::Fail(FailureView::Work) <==> {
            ||| s.stage == Stage::ResolvConf && e == EventView::Content(None)
            ||| s.stage == Stage::ResolvConfWritten && e == EventView::Written(false)
            ||| s.stage == Stage::AntiList && e == EventView::Text(None)
            ||| s.stage == Stage::CurrentForward && e == EventView::Reply(None)
            ||| s.stage == Stage::ForwardSent && e == EventView::Reply(None)
            ||| s.stage == Stage::NmRecorded && e == EventView::Written(false)
            ||| s.stage == Stage::LastStartedRecorded && e == EventView::Written(false)
            ||| s.stage == Stage::KnownRemoved && e == EventView::Removal(Removal::Failed)
        },
        next(s, e).1 == ActionView::Fail(FailureView::OutOfTurn) <==> !(match s.stage {
            Stage::LastStarted | Stage::LastStartedKnown | Stage::NmKnown | Stage::ResolvConf =>
                e is Content,
            Stage::ResolvConfWritten | Stage::NmRecorded | Stage::LastStartedRecorded =>
                e is Written,
            Stage::AntiList => e is Text,
            Stage::CurrentForward | Stage::ForwardSent => e is Reply,
            Stage::KnownAge => e is Age,
            Stage::KnownRemoved => e is Removal,
            Stage::Finished => false,
        }),
{
}

/// A run fails over what it was told just where a configuration cannot be updated, Knot Resolver
/// refuses, or what it has cannot be read.
pub proof fn law_failed_contents(s: SessionView, e: EventView, why: FailureView)
    requires
        next(s, e).1 == ActionView::Fail(why),
    ensures
        why is SearchInvalid <==> s.stage == Stage::ResolvConf && (
        e matches EventView::Content(Some(bytes)) && search_update(bytes, s.search) is Invalid),
        why is SearchNotUtf8 <==> s.stage == Stage::ResolvConf && (
        e matches EventView::Content(Some(bytes)) && search_update(bytes, s.search) is NotUtf8),
        why matches FailureView::Api(error) ==> (e matches EventView::Reply(Some(reply)) && ((
        s.stage == Stage::CurrentForward && (forward_reply(reply.0, reply.1) matches Err(told)
            && told == error)) || (s.stage == Stage::ForwardSent && (change_reply(
            reply.0,
            reply.1,
        ) matches Err(told) && told == error)))),
        why matches FailureView::Current(error) ==> s.stage == Stage::CurrentForward && (
        e matches EventView::Reply(Some(reply)) && (forward_reply(reply.0, reply.1) matches Ok(
            current,
        ) && (canonical(current) matches Err(told) && told == error))),
        !(why is Wanted),
{
}

/// What a run remembers: what Knot Resolver wrote when it started, once that is read; whether that
/// is other than was recorded; and the domains of the list, once it is read.
pub proof fn law_remembered(s: SessionView, e: EventView)
    ensures
        next(s, e).0.last_started == (if s.stage == Stage::LastStarted && e is Content {
            e->Content_0
        } else {
            s.last_started
        }),
        next(s, e).0.changed <==> if s.stage == Stage::LastStarted && e is Content {
            e->Content_0 is None || s.changed
        } else if s.stage == Stage::LastStartedKnown && e is Content {
            s.last_started is None || e->Content_0 != Some(sha3_512(s.last_started->0))
        } else {
            s.changed
        },
        next(s, e).0.anti == (if s.stage == Stage::AntiList && e is Text && e->Text_0 is Some {
            domain_list(e->Text_0->0)
        } else {
            s.anti
        }),
{
}

/// What a run waits for is the outcome of what it asks for.
pub proof fn law_waiting_for(s: SessionView, e: EventView)
    ensures
        ({
            let (after, action) = next(s, e);
            match action {
                ActionView::ReadFile(_) => after.stage == match s.stage {
                    Stage::NmKnown => Stage::ResolvConf,
                    Stage::LastStarted if e->Content_0 is Some => Stage::LastStartedKnown,
                    _ => Stage::NmKnown,
                },
                ActionView::ReadText(_) => after.stage == Stage::AntiList,
                ActionView::Write { .. } => after.stage == match s.stage {
                    Stage::ResolvConf => Stage::ResolvConfWritten,
                    Stage::NmRecorded => Stage::LastStartedRecorded,
                    _ => Stage::NmRecorded,
                },
                ActionView::GetForward => after.stage == Stage::CurrentForward,
                ActionView::PutForward(_) => after.stage == Stage::ForwardSent,
                ActionView::Stat(_) => after.stage == Stage::KnownAge,
                ActionView::Remove(_) => after.stage == Stage::KnownRemoved,
                ActionView::UpToDate | ActionView::Applied | ActionView::Fail(_) => after.stage
                    == Stage::Finished,
            }
        }),
{
}

/// Ages: a time that lies ahead is an error, and otherwise a file is older than `time_ago` just
/// where more than that has passed. A record is kept for 24 hours, and only where its age is known.
pub proof fn law_ages(modified: int, now: int, time_ago: int)
    ensures
        older_than(modified, now, time_ago) is Err <==> now < modified,
        older_than(modified, now, time_ago) == Ok::<bool, ()>(true) <==> modified <= now && modified
            + time_ago < now,
        outdated(None),
        outdated(Some((modified, now))) <==> now < modified || modified + 24 * 60 * 60
            * 1_000_000_000 < now,
{
}

/// What is sent is JSON text, not all white space, for the document of the wanted rules, which reads
/// as those rules.
pub proof fn law_sent_config(s: SessionView, body: Seq<u8>)
    ensures
        sent_config(s, body) ==> (exists|i: int|
            0 <= i < body.len() && !set![9u8, 10u8, 12u8, 13u8, 32u8].contains(#[trigger] body[i]))
            && json_document(body) == Some(forward_config(s.servers, s.anti)) && canonical(
            forward_config(s.servers, s.anti),
        ) == Ok::<_, ForwardErrorView>(wanted_rules(s.servers, s.anti)),
{
    if sent_config(s, body) {
        let i = choose|i: int|
            0 <= i < body.len() && !ascii_white_space(#[trigger] body[i]);
        assert(!set![9u8, 10u8, 12u8, 13u8, 32u8].contains(body[i]));
    }
}

} // verus!

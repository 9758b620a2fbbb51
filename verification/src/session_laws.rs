//! What holds of every run of the updater.

use vstd::prelude::*;

use crate::api::{forward_reply, success, ApiErrorView};
use crate::forward::{canonical, forward_config, wanted_rules, ForwardErrorView};
use crate::json::json_encoding;
use crate::known::{records, sha3_512};
use crate::session::{
    next, nm_known, record_nm, sent_config, started_known, ActionView, EventView, FailureView,
    SessionView, Stage,
};

verus! {

/// How far a run has come.
pub open spec fn rank(stage: Stage) -> int {
    match stage {
        Stage::LastStarted => 0,
        Stage::LastStartedKnown => 1,
        Stage::NmKnown => 2,
        Stage::ResolvConf => 3,
        Stage::ResolvConfWritten => 4,
        Stage::AntiList => 5,
        Stage::CurrentForward => 6,
        Stage::ForwardSent => 7,
        Stage::NmRecorded => 8,
        Stage::LastStartedRecorded => 9,
        Stage::KnownAge => 10,
        Stage::KnownRemoved => 11,
        Stage::Finished => 12,
    }
}

/// Whether an action ends the run.
pub open spec fn ends(action: ActionView) -> bool {
    action is UpToDate || action is Applied || action is Fail
}

/// Whether an action changes anything outside.
pub open spec fn changes(action: ActionView) -> bool {
    action is Write || action is PutForward || action is Remove
}

/// A run never goes back: each step comes nearer to the end, whatever the outcome of the outside
/// work, and the run is over just when an action says so.
pub proof fn law_runs_end(s: SessionView, e: EventView)
    ensures
        s.stage != Stage::Finished ==> rank(next(s, e).0.stage) > rank(s.stage),
        next(s, e).0.stage == Stage::Finished <==> ends(next(s, e).1),
        s.stage == Stage::Finished ==> next(s, e).1 is Fail,
{
}

/// What a run was given stays: where files are, what it is asked to do, and NetworkManager's
/// configuration.
pub proof fn law_inputs_stay(s: SessionView, e: EventView)
    ensures
        next(s, e).0.resolv_conf == s.resolv_conf,
        next(s, e).0.run_dir == s.run_dir,
        next(s, e).0.anti_path == s.anti_path,
        next(s, e).0.started_path == s.started_path,
        next(s, e).0.nm_path == s.nm_path,
        next(s, e).0.options == s.options,
        next(s, e).0.nm == s.nm,
        next(s, e).0.servers == s.servers,
        next(s, e).0.search == s.search,
{
}

/// NetworkManager's configuration is recorded as applied only once Knot Resolver has said that
/// the wanted rules are in force, or has taken them.
pub proof fn law_recorded_only_in_force(s: SessionView, e: EventView)
    requires
        next(s, e).0.stage == Stage::NmRecorded,
    ensures
        next(s, e).1 == (ActionView::Write { path: nm_known(s), contents: sha3_512(s.nm) }),
        e matches EventView::Reply(Some(reply)) && success(reply.0) && (s.stage
            == Stage::ForwardSent || (s.stage == Stage::CurrentForward && (forward_reply(
            reply.0,
            reply.1,
        ) matches Ok(current) && canonical(current) == Ok::<_, ForwardErrorView>(
            wanted_rules(s.servers, s.anti),
        )))),
{
}

/// Only the wanted rules are ever sent, and only where Knot Resolver has told rules that differ
/// from them.
pub proof fn law_only_wanted_rules_are_sent(s: SessionView, e: EventView)
    ensures
        next(s, e).1 is PutForward <==> next(s, e).0.stage == Stage::ForwardSent,
        next(s, e).1 is PutForward ==> next(s, e).1 == ActionView::PutForward(
            json_encoding(forward_config(s.servers, s.anti)),
        ) && next(s, e).0.anti == s.anti && (e matches EventView::Reply(Some(reply)) && (
        forward_reply(reply.0, reply.1) matches Ok(current) && (canonical(current) matches Ok(rules)
            && rules != wanted_rules(s.servers, s.anti)))),
        s.stage == Stage::ForwardSent ==> next(s, e).0.anti == s.anti,
{
}

/// A run that ends as applied has recorded NetworkManager's configuration: the stages that can
/// end so are reached only by way of a record that was written.
pub proof fn law_applied_is_recorded(s: SessionView, e: EventView)
    ensures
        next(s, e).1 is Applied ==> rank(s.stage) > rank(Stage::NmRecorded),
        rank(Stage::NmRecorded) < rank(next(s, e).0.stage) < rank(Stage::Finished) ==> rank(s.stage)
            > rank(Stage::NmRecorded) || (s.stage == Stage::NmRecorded && e == EventView::Written(
            true,
        )),
{
}

/// Nothing outside is changed before the run knows that there is something to apply.
pub proof fn law_nothing_changes_before_the_need(s: SessionView, e: EventView)
    requires
        rank(s.stage) <= rank(Stage::NmKnown),
    ensures
        !changes(next(s, e).1),
        s.stage == Stage::NmKnown && !ends(next(s, e).1) ==> s.changed || s.options.always_apply
            || !(e matches EventView::Content(known) && records(Some(s.nm), known)),
{
}

/// A second run has nothing to do: where both companions hold what a run records, the contents
/// that they record have not changed, and the run need not apply them anyway, it looks at three
/// files and ends.
pub proof fn law_second_run_is_quiet(s: SessionView, started: Seq<u8>)
    requires
        s.stage == Stage::LastStarted,
        !s.options.always_apply,
    ensures
        ({
            let first = next(s, EventView::Content(Some(started)));
            let second = next(first.0, EventView::Content(Some(sha3_512(started))));
            let third = next(second.0, EventView::Content(Some(sha3_512(s.nm))));
            &&& first.1 == ActionView::ReadFile(started_known(s))
            &&& second.1 == ActionView::ReadFile(nm_known(s))
            &&& third.1 == ActionView::UpToDate
        }),
{
}

/// Rules that were sent are not sent again: where Knot Resolver answers with the text that a run
/// sends, the next run with the same wishes finds the rules in force.
pub proof fn law_sent_rules_are_in_force(s: SessionView, status: int, body: Seq<u8>)
    requires
        s.stage == Stage::CurrentForward,
        success(status),
        sent_config(s, body),
    ensures
        next(s, EventView::Reply(Some((status, body)))) == record_nm(s),
{
}

/// A file that could not be written ends the run as a failure for just that reason.
pub proof fn law_failed_writes_fail(s: SessionView, e: EventView, written: bool)
    requires
        next(s, e).1 is Write,
    ensures
        next(next(s, e).0, EventView::Written(written)).1 is Fail <==> !written,
        !written ==> next(next(s, e).0, EventView::Written(written)).1 == ActionView::Fail(
            FailureView::Work,
        ) && next(next(s, e).0, EventView::Written(written)).0.stage == Stage::Finished,
{
}

/// A refused request ends the run as a failure that carries the reply's status, and no record is
/// written.
pub proof fn law_refusals_fail(s: SessionView, status: int, body: Seq<u8>)
    requires
        s.stage == Stage::CurrentForward || s.stage == Stage::ForwardSent,
        !success(status),
    ensures
        next(s, EventView::Reply(Some((status, body)))).0.stage == Stage::Finished,
        next(s, EventView::Reply(Some((status, body)))).1 matches ActionView::Fail(
            FailureView::Api(ApiErrorView::Refused { status: told, .. }),
        ) && told == status,
{
}

} // verus!

//! Views leave nothing out that a value says.

use vstd::prelude::*;

use crate::addr::{IpAddr, ScopedIp};
use crate::api::{ApiError, ApiErrorView};
use crate::forward::{
    rules_result, rules_view, ForwardError, ForwardErrorView, ForwardRule, RuleView,
};
use crate::json::{
    fields_view, lemma_items_view, lemma_last_field, node_view, value_fields, value_view, Json,
    JsonNode, JsonView,
};
use crate::known::bytes_view;
use crate::resolv::{content_view, ParsedResolv};
use crate::search::{update_result, SearchError, SearchUpdate};
use crate::session::{Action, ActionView, Event, EventView, Failure, FailureView, Session};

verus! {

/// The view of a rule has the rule's domains and servers, in their places, and what it says of
/// validation.
pub proof fn law_rule_view(rules: Seq<ForwardRule>, i: int, k: int)
    ensures
        rules_view(rules).len() == rules.len(),
        0 <= i < rules.len() ==> {
            let (rule, view) = (rules[i], rules_view(rules)[i]);
            &&& view.dnssec == rule.dnssec
            &&& view.servers == rule.servers@
            &&& view.subtree.len() == rule.subtree@.len()
            &&& 0 <= k < view.subtree.len() ==> view.subtree[k] == rule.subtree@[k]@
        },
{
}

/// The view of an error in a document of rules has all that the error says.
pub proof fn law_forward_error_view(e: ForwardError)
    ensures
        match e {
            ForwardError::NotAnArray => e@ is NotAnArray,
            ForwardError::RuleNotObject { rule } => e@ == (ForwardErrorView::RuleNotObject {
                rule: rule as int,
            }),
            ForwardError::SubtreeNotText { rule, item } => e@ == (
            ForwardErrorView::SubtreeNotText { rule: rule as int, item: item as int }),
            ForwardError::InvalidSubtree { rule, subtree } => e@ == (
            ForwardErrorView::InvalidSubtree { rule: rule as int, subtree: subtree@ }),
            ForwardError::MissingServers { rule } => e@ == (ForwardErrorView::MissingServers {
                rule: rule as int,
            }),
            ForwardError::ServerNotText { rule, item } => e@ == (ForwardErrorView::ServerNotText {
                rule: rule as int,
                item: item as int,
            }),
            ForwardError::InvalidServer { rule, text } => e@ == (ForwardErrorView::InvalidServer {
                rule: rule as int,
                text: text@,
            }),
        },
{
}

/// The view of a document has its kind and what is in it: an array has the views of its items, in
/// their places, and an object has the fields that it names, each with the last value given.
pub proof fn law_json_view(j: Json, i: int, name: Seq<char>)
    ensures
        match j {
            Json::Null => j@ is Null,
            Json::Bool(b) => j@ == JsonView::Bool(b),
            Json::Number(n) => j@ == JsonView::Number(n),
            Json::Text(s) => j@ == JsonView::Text(s@),
            Json::Array(items) => j@ is Array && j@->Array_0.len() == items@.len() && (0 <= i
                < items@.len() ==> j@->Array_0[i] == items@[i]@),
            Json::Object(fields) => {
                &&& j@ is Object
                &&& j@->Object_0.dom().contains(name) <==> exists|k: int|
                    0 <= k < fields@.len() && (#[trigger] fields@[k]).0@ == name
                &&& 0 <= i < fields@.len() && (forall|k: int|
                    i < k < fields@.len() ==> (#[trigger] fields@[k]).0@ != fields@[i].0@)
                    ==> j@->Object_0[fields@[i].0@] == fields@[i].1@
            },
        },
{
    match j {
        Json::Array(items) => lemma_items_view(items@),
        Json::Object(fields) => {
            lemma_fields_named(fields@, name);
            if 0 <= i < fields@.len() && forall|k: int|
                i < k < fields@.len() ==> (#[trigger] fields@[k]).0@ != fields@[i].0@ {
                lemma_last_field(fields@, i);
            }
        },
        _ => {},
    }
}

/// An object has just the fields that are named.
proof fn lemma_fields_named(fields: Seq<(String, Json)>, name: Seq<char>)
    ensures
        fields_view(fields).dom().contains(name) <==> exists|k: int|
            0 <= k < fields.len() && (#[trigger] fields[k]).0@ == name,
    decreases fields.len(),
{
    if fields.len() > 0 {
        let rest = fields.drop_last();
        lemma_fields_named(rest, name);
        if fields_view(rest).dom().contains(name) {
            let k = choose|k: int| 0 <= k < rest.len() && (#[trigger] rest[k]).0@ == name;
            assert(fields[k].0@ == name);
        }
        if fields.last().0@ == name {
            assert(fields[fields.len() - 1].0@ == name);
        }
        if exists|k: int| 0 <= k < fields.len() && (#[trigger] fields[k]).0@ == name {
            let k = choose|k: int| 0 <= k < fields.len() && (#[trigger] fields[k]).0@ == name;
            if k < rest.len() {
                assert(rest[k].0@ == name);
            }
        }
    }
}

/// One level of a document says what its parts say.
pub proof fn law_node_view(n: JsonNode, i: int)
    ensures
        match n {
            JsonNode::Null => node_view(n) is Null,
            JsonNode::Bool(b) => node_view(n) == JsonView::Bool(b),
            JsonNode::Number(number) => node_view(n) == JsonView::Number(number),
            JsonNode::Text(s) => node_view(n) == JsonView::Text(s@),
            JsonNode::Array(items) => node_view(n) is Array && node_view(n)->Array_0.len()
                == items@.len() && (0 <= i < items@.len() ==> node_view(n)->Array_0[i] == value_view(
                items@[i],
            )),
            JsonNode::Object(fields) => node_view(n) is Object && (fields@.len() == 0
                ==> node_view(n)->Object_0 == Map::<Seq<char>, JsonView>::empty()) && (fields@.len()
                > 0 ==> node_view(n)->Object_0 == value_fields(fields@.drop_last()).insert(
                fields@.last().0@,
                value_view(fields@.last().1),
            )),
        },
{
}

/// The view of an API error has the status and the text of a refusal.
pub proof fn law_api_error_view(e: ApiError)
    ensures
        match e {
            ApiError::Refused { status, text } => e@ == (ApiErrorView::Refused {
                status: status as int,
                text: text@,
            }),
            ApiError::InvalidJson(_) => e@ is InvalidJson,
            ApiError::Unwritable(_) => e@ is Unwritable,
        },
{
}

/// The view of a listed address has the address and its scope.
pub proof fn law_scoped_view(parsed: ParsedResolv, i: int)
    ensures
        parsed@.nameservers.len() == parsed.nameservers@.len(),
        0 <= i < parsed.nameservers@.len() ==> match parsed.nameservers@[i] {
            ScopedIp::V4(bits) => parsed@.nameservers[i].addr == IpAddr::V4(bits)
                && parsed@.nameservers[i].scope is None,
            ScopedIp::V6(bits, None) => parsed@.nameservers[i].addr == IpAddr::V6(bits)
                && parsed@.nameservers[i].scope is None,
            ScopedIp::V6(bits, Some(scope)) => parsed@.nameservers[i].addr == IpAddr::V6(bits)
                && parsed@.nameservers[i].scope == Some(scope@),
        },
        parsed.search is Some <==> parsed@.search is Some,
        parsed.search is Some ==> parsed@.search->0.len() == parsed.search->0@.len() && (0 <= i
            < parsed.search->0@.len() ==> parsed@.search->0[i] == parsed.search->0@[i]@),
{
}

/// The view of an outcome has all that the outcome says.
pub proof fn law_event_view(e: Event)
    ensures
        match e {
            Event::Content(None) => e@ == EventView::Content(None),
            Event::Content(Some(bytes)) => e@ == EventView::Content(Some(bytes@)),
            Event::Text(None) => e@ == EventView::Text(None),
            Event::Text(Some(text)) => e@ == EventView::Text(Some(text@)),
            Event::Written(ok) => e@ == EventView::Written(ok),
            Event::Reply(None) => e@ == EventView::Reply(None),
            Event::Reply(Some(reply)) => e@ == EventView::Reply(Some((reply.0 as int, reply.1@))),
            Event::Age(None) => e@ == EventView::Age(None),
            Event::Age(Some(age)) => e@ == EventView::Age(Some((age.0 as int, age.1 as int))),
            Event::Removal(r) => e@ == EventView::Removal(r),
        },
{
}

/// The view of an action has all that the action says.
pub proof fn law_action_view(a: Action)
    ensures
        match a {
            Action::ReadFile(path) => a@ == ActionView::ReadFile(path@),
            Action::ReadText(path) => a@ == ActionView::ReadText(path@),
            Action::Write(file) => a@ == (ActionView::Write {
                path: file.path@,
                contents: file.contents@,
            }),
            Action::GetForward => a@ is GetForward,
            Action::PutForward(body) => a@ == ActionView::PutForward(body@),
            Action::Stat(path) => a@ == ActionView::Stat(path@),
            Action::Remove(path) => a@ == ActionView::Remove(path@),
            Action::UpToDate => a@ is UpToDate,
            Action::Applied => a@ is Applied,
            Action::Fail(why) => a@ == ActionView::Fail(why@),
        },
{
}

/// The view of a failure tells failures apart.
pub proof fn law_failure_view(f: Failure)
    ensures
        f is Work <==> f@ is Work,
        f is Search <==> f@ is SearchInvalid || f@ is SearchNotUtf8,
        f is Search ==> (f->Search_0 is Invalid <==> f@ is SearchInvalid),
        f matches Failure::Api(e) ==> f@ == FailureView::Api(e@),
        f matches Failure::Wanted(e) ==> f@ == FailureView::Wanted(e@),
        f matches Failure::Current(e) ==> f@ == FailureView::Current(e@),
        f is OutOfTurn <==> f@ is OutOfTurn,
{
}

/// The view of a run has all that the run holds.
pub proof fn law_session_view(s: Session, i: int)
    ensures
        s@.resolv_conf == s.cfg.resolv_conf@,
        s@.run_dir == s.cfg.run_dir@,
        s@.anti_path == s.cfg.resolv_anti_rfc6761@,
        s@.started_path == s.cfg.knot_resolver_last_started@,
        s@.nm_path == s.cfg.resolv_nm_conf@,
        s@.options == s.options,
        s@.nm == s.desired.bytes@,
        s@.servers == s.desired.nameservers@,
        s@.search.len() == s.desired.search_domains@.len(),
        0 <= i < s@.search.len() ==> s@.search[i] == s.desired.search_domains@[i]@,
        s@.last_started is Some <==> s.last_started is Some,
        s.last_started matches Some(bytes) ==> s@.last_started == Some(bytes@),
        s@.changed == s.last_started_changed,
        s@.anti.len() == s.anti_rfc6761@.len(),
        0 <= i < s@.anti.len() ==> s@.anti[i] == s.anti_rfc6761@[i]@,
        s@.stage == s.stage,
{
}

/// What a result says is what is in it.
pub proof fn law_results(
    rules: Result<Vec<ForwardRule>, ForwardError>,
    update: Result<Option<String>, SearchError>,
    content: Option<Vec<u8>>,
    bytes: Option<&[u8]>,
)
    ensures
        match rules {
            Ok(v) => rules_result(rules) == Ok::<_, ForwardErrorView>(rules_view(v@)),
            Err(e) => rules_result(rules) == Err::<Seq<RuleView>, _>(e@),
        },
        match update {
            Ok(None) => update_result(update) is Unchanged,
            Ok(Some(text)) => update_result(update) == SearchUpdate::Replaced(text@),
            Err(SearchError::Invalid(_)) => update_result(update) is Invalid,
            Err(SearchError::NotUtf8(_)) => update_result(update) is NotUtf8,
        },
        match content {
            Some(v) => content_view(content) == Some(v@),
            None => content_view(content) is None,
        },
        match bytes {
            Some(v) => bytes_view(bytes) == Some(v@),
            None => bytes_view(bytes) is None,
        },
{
}

} // verus!

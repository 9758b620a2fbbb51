//! Knot Resolver's configuration interface: what is sent, and what replies mean.

use vstd::prelude::*;
use vstd::utf8::{decode_utf8, valid_utf8};

use crate::json::{
    ascii_white_space, items_view, json_document, json_encoding, restorable, read_json,
    write_json, Json, JsonView,
};
use crate::text::{chars_of, text_of, trim, trim_of};

verus! {

/// Why an exchange with Knot Resolver failed.
#[derive(Debug)]
pub enum ApiError {
    /// The request was refused.
    Refused {
        /// The status of the reply.
        status: u16,
        /// What the reply says.
        text: String,
    },
    /// The reply is not JSON.
    InvalidJson(serde_json::Error),
    /// The wanted configuration could not be written as JSON.
    Unwritable(serde_json::Error),
}

/// What an `ApiError` says, but for the causes that `serde_json` reports.
pub enum ApiErrorView {
    /// The request was refused.
    Refused {
        /// The status of the reply.
        status: int,
        /// What the reply says.
        text: Seq<char>,
    },
    /// The reply is not JSON.
    InvalidJson,
    /// The wanted configuration could not be written as JSON.
    Unwritable,
}

impl View for ApiError {
    type V = ApiErrorView;

    open spec fn view(&self) -> ApiErrorView {
        match *self {
            ApiError::Refused { status, text } => ApiErrorView::Refused {
                status: status as int,
                text: text@,
            },
            ApiError::InvalidJson(_) => ApiErrorView::InvalidJson,
            ApiError::Unwritable(_) => ApiErrorView::Unwritable,
        }
    }
}

/// Whether a reply's status reports success.
pub open spec fn success(status: int) -> bool {
    200 <= status < 300
}

/// Whether there is nothing but ASCII white space.
pub open spec fn blank(bytes: Seq<u8>) -> bool {
    forall|i: int| 0 <= i < bytes.len() ==> ascii_white_space(#[trigger] bytes[i])
}

/// The text that bytes stand for where they need not be UTF-8.
pub uninterp spec fn lossy_text(bytes: Seq<u8>) -> Seq<char>;

/// What a reply to a request for the rules means.
pub open spec fn forward_reply(status: int, body: Seq<u8>) -> Result<JsonView, ApiErrorView> {
    if !success(status) {
        Err(ApiErrorView::Refused { status, text: lossy_text(body) })
    } else if blank(body) {
        Ok(JsonView::Array(Seq::empty()))
    } else {
        match json_document(body) {
            Some(j) => Ok(j),
            None => Err(ApiErrorView::InvalidJson),
        }
    }
}

/// What a reply to a change of the rules means.
pub open spec fn change_reply(status: int, body: Seq<u8>) -> Result<(), ApiErrorView> {
    if success(status) {
        Ok(())
    } else {
        Err(ApiErrorView::Refused { status, text: trim_of(lossy_text(body)) })
    }
}

/// Decodes with `String::from_utf8_lossy`: it is claimed that the text depends on the bytes alone,
/// and is what they encode where they are valid UTF-8. What stands for invalid bytes is left
/// unsaid.
#[verifier::external_body]
fn from_utf8_lossy(bytes: &[u8]) -> (r: String)
    ensures
        r@ == lossy_text(bytes@),
        valid_utf8(bytes@) ==> r@ == decode_utf8(bytes@),
{
    String::from_utf8_lossy(bytes).into_owned()
}

/// Where the rules are, below the interface's address.
pub fn forward_path() -> (r: &'static str)
    ensures
        r@ == "/v1/config/forward"@,
{
    "/v1/config/forward"
}

/// Whether a reply's status reports success.
fn is_success(status: u16) -> (r: bool)
    ensures
        r == success(status as int),
{
    200 <= status && status < 300
}

/// Whether there is nothing but ASCII white space.
fn is_blank(bytes: &[u8]) -> (r: bool)
    ensures
        r == blank(bytes@),
{
    let mut i: usize = 0;
    while i < bytes.len()
        invariant
            i <= bytes@.len(),
            forall|k: int| 0 <= k < i ==> ascii_white_space(#[trigger] bytes@[k]),
        decreases bytes@.len() - i,
    {
        let b = bytes[i];
        if !(b == 0x09 || b == 0x0a || b == 0x0c || b == 0x0d || b == 0x20) {
            assert(!ascii_white_space(bytes@[i as int]));
            return false;
        }
        i += 1;
    }
    true
}

/// The rules document in a reply to a request for the rules. A blank reply states no rules.
pub fn get_knot_forward(status: u16, body: &[u8]) -> (r: Result<Json, ApiError>)
    ensures
        match r {
            Ok(j) => forward_reply(status as int, body@) == Ok::<_, ApiErrorView>(j@),
            Err(e) => forward_reply(status as int, body@) == Err::<JsonView, _>(e@),
        },
        r matches Err(ApiError::Refused { text, .. }) ==> (valid_utf8(body@) ==> text@
            == decode_utf8(body@)),
{
    if !is_success(status) {
        return Err(ApiError::Refused { status, text: from_utf8_lossy(body) });
    }
    if is_blank(body) {
        let none: Vec<Json> = Vec::new();
        assert(items_view(none@) == Seq::<JsonView>::empty());
        return Ok(Json::Array(none));
    }
    match read_json(body) {
        Ok(j) => Ok(j),
        Err(e) => Err(ApiError::InvalidJson(e)),
    }
}

/// The body of the request that puts a configuration in place.
pub fn set_knot_forward(config: Json) -> (r: Result<Vec<u8>, ApiError>)
    ensures
        r matches Ok(b) && b@ == json_encoding(config@),
        r matches Ok(b) && !blank(b@),
        r matches Ok(b) && (restorable(config@, 127) ==> json_document(b@) == Some(config@)),
{
    match write_json(config) {
        Ok(b) => {
            assert(!ascii_white_space(b@[0]));
            Ok(b)
        },
        Err(e) => Err(ApiError::Unwritable(e)),
    }
}

/// Whether Knot Resolver took a configuration that was sent to it.
pub fn set_knot_forward_reply(status: u16, body: &[u8]) -> (r: Result<(), ApiError>)
    ensures
        match r {
            Ok(_) => change_reply(status as int, body@) == Ok::<_, ApiErrorView>(()),
            Err(e) => change_reply(status as int, body@) == Err::<(), _>(e@),
        },
        r matches Err(ApiError::Refused { text, .. }) ==> (valid_utf8(body@) ==> text@ == trim_of(
            decode_utf8(body@),
        )),
{
    if is_success(status) {
        return Ok(());
    }
    let text = from_utf8_lossy(body);
    let chars = chars_of(text.as_str());
    Err(ApiError::Refused { status, text: text_of(trim(chars.as_slice())) })
}

/// Replies report success with the statuses from 200 to 299.
pub proof fn law_success(status: int)
    ensures
        success(status) <==> 200 <= status && status <= 299,
{
}

/// What a reply to a request for the rules means: without success, a refusal with the status and
/// the text of the reply; with success, no rules where each byte is a tab, a line feed, a form
/// feed, a carriage return or a space, and otherwise the document that the bytes denote.
pub proof fn law_forward_reply(status: int, body: Seq<u8>)
    ensures
        !(200 <= status && status <= 299) ==> forward_reply(status, body) == Err::<JsonView, _>(
            ApiErrorView::Refused { status, text: lossy_text(body) },
        ),
        200 <= status && status <= 299 && (forall|i: int|
            0 <= i < body.len() ==> set![9u8, 10u8, 12u8, 13u8, 32u8].contains(#[trigger] body[i]))
            ==> forward_reply(status, body) == Ok::<_, ApiErrorView>(JsonView::Array(Seq::empty())),
        200 <= status && status <= 299 && (exists|i: int|
            0 <= i < body.len() && !set![9u8, 10u8, 12u8, 13u8, 32u8].contains(#[trigger] body[i]))
            ==> match forward_reply(status, body) {
            Ok(j) => json_document(body) == Some(j),
            Err(e) => json_document(body) is None && e is InvalidJson,
        },
{
    assert forall|i: int| 0 <= i < body.len() implies (set![
        9u8,
        10u8,
        12u8,
        13u8,
        32u8,
    ].contains(#[trigger] body[i]) <==> ascii_white_space(body[i])) by {}
}

/// What a reply to new rules means: they are taken just where the status reports success, and
/// otherwise refused with the status and the trimmed text of the reply.
pub proof fn law_change_reply(status: int, body: Seq<u8>)
    ensures
        200 <= status && status <= 299 ==> change_reply(status, body) is Ok,
        !(200 <= status && status <= 299) ==> change_reply(status, body) == Err::<(), _>(
            ApiErrorView::Refused { status, text: trim_of(lossy_text(body)) },
        ),
{
}

} // verus!

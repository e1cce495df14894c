//! What the gateway answers: whether a request succeeded, and why an answer
//! could not be used.

use crate::hex::ParseError;
use crate::items::{devices_are_named, names_devices, read_len};
use crate::json_value::{
    is_null, json_kind, json_member, json_null, json_parse, json_text, kind, member, parse, text,
    trailing_zeros, zero_runs_fit, JsonKind, MAX_ZERO_RUN,
};
use vstd::prelude::*;
use vstd::string::*;

verus! {

/// Why a document of the gateway could not be used.
#[derive(Debug)]
pub enum MtcapError {
    /// An identity in the document cannot be read.
    Parse(ParseError),
    /// The document is no JSON.
    Json(json::Error),
    /// The document is JSON of another shape than expected: a field is
    /// missing or of the wrong type.
    Protocol,
    /// The document holds a run of zeros too long to be read.
    Overlong,
    /// The gateway reported a failure; this is its message.
    Other(String),
    /// The gateway reported a failure and gave no message.
    Failed,
}

/// Whether no run of `0` characters in `text` is longer than `MAX_ZERO_RUN`.
pub fn zero_runs_are_short(text: &str) -> (fit: bool)
    ensures
        fit == zero_runs_fit(text@),
{
    let mut run: usize = 0;
    assert(text@.take(0) =~= Seq::<char>::empty());
    for c in it: text.chars()
        invariant
            it.seq() == text@,
            run == trailing_zeros(text@.take(it.index() as int)),
            run <= MAX_ZERO_RUN,
            forall|k: int|
                0 <= k <= it.index() ==> trailing_zeros(#[trigger] text@.take(k)) <= MAX_ZERO_RUN,
    {
        let ghost i = it.index() as int;
        proof {
            assert(text@.take(i + 1).drop_last() =~= text@.take(i));
            assert(text@.take(i + 1).last() == text@[i]);
        }
        if c == '0' {
            run = run + 1;
            if run > MAX_ZERO_RUN {
                return false;
            }
        } else {
            run = 0;
        }
    }
    true
}

/// The JSON value that `text` spells, if it is one that can be read.
pub open spec fn document_in(text: Seq<char>) -> Option<json::JsonValue> {
    if zero_runs_fit(text) {
        json_parse(text)
    } else {
        None
    }
}

/// Whether `error` says why `text` cannot be read as a document: for its
/// run of zeros where that is too long, else for being no JSON.
pub open spec fn is_unread(text: Seq<char>, error: MtcapError) -> bool {
    if zero_runs_fit(text) {
        error is Json
    } else {
        error is Overlong
    }
}

/// Reads `text` as one JSON value.
///
/// A text with a run of more than `MAX_ZERO_RUN` zeros is refused unread.
pub fn read_document(text: &str) -> (r: Result<json::JsonValue, MtcapError>)
    ensures
        match document_in(text@) {
            Some(document) => r is Ok && r->Ok_0 == document,
            None => r is Err && is_unread(text@, r->Err_0),
        },
{
    if !zero_runs_are_short(text) {
        return Err(MtcapError::Overlong);
    }
    match parse(text) {
        Ok(document) => Ok(document),
        Err(e) => Err(MtcapError::Json(e)),
    }
}

/// Whether `error` says that an identity could not be read, for the reason `reason`.
pub open spec fn is_parse_error(error: MtcapError, reason: ParseError) -> bool {
    error matches MtcapError::Parse(e) && e == reason
}

/// Whether the gateway's answer `document` holds a list of devices: an
/// array under `result`, of which each item that is read holds a string
/// under `deveui`.
pub open spec fn holds_list(document: json::JsonValue, every: bool) -> bool {
    &&& json_kind(json_member(document, "result"@)) is Array
    &&& names_devices(
        json_member(document, "result"@),
        read_len(json_member(document, "result"@), every),
    )
}

/// The list of devices that the gateway's answer holds under `result`, of
/// which every item is to be read, or those before the first `null`. An
/// answer that holds no such list is of the wrong shape.
pub fn list_in<'a>(document: &'a json::JsonValue, every: bool) -> (r: Result<
    &'a json::JsonValue,
    MtcapError,
>)
    ensures
        if holds_list(*document, every) {
            r is Ok && *r->Ok_0 == json_member(*document, "result"@)
        } else {
            r is Err && r->Err_0 is Protocol
        },
{
    let list = member(document, "result");
    match kind(list) {
        JsonKind::Array => {},
        _ => {
            return Err(MtcapError::Protocol);
        },
    }
    if devices_are_named(list, every) {
        Ok(list)
    } else {
        Err(MtcapError::Protocol)
    }
}

/// Whether the gateway's answer `document` reports success.
pub open spec fn succeeded(document: json::JsonValue) -> bool {
    json_text(json_member(document, "status"@)) == "success"@
}

/// The error message that the gateway's answer `document` carries, if any.
pub open spec fn failure_message(document: json::JsonValue) -> Option<Seq<char>> {
    if json_null(json_member(document, "error"@)) {
        None
    } else {
        Some(json_text(json_member(document, "error"@)))
    }
}

/// Checks the status that the gateway's answer carries.
///
/// An answer with the status `success` is accepted. Any other is refused,
/// with the gateway's own error message where it holds one.
pub fn check_status(response: &str) -> (r: Result<(), MtcapError>)
    ensures
        match document_in(response@) {
            None => r is Err && is_unread(response@, r->Err_0),
            Some(document) => if succeeded(document) {
                r is Ok
            } else {
                match failure_message(document) {
                    Some(message) => r is Err && (r->Err_0 matches MtcapError::Other(m) && m@
                        == message),
                    None => r is Err && r->Err_0 is Failed,
                }
            },
        },
{
    let document = match read_document(response) {
        Ok(document) => document,
        Err(e) => {
            return Err(e);
        },
    };
    let status = text(member(&document, "status"));
    let expected = "success".to_owned();
    if status == expected {
        Ok(())
    } else {
        let error = member(&document, "error");
        if !is_null(error) {
            Err(MtcapError::Other(text(error)))
        } else {
            Err(MtcapError::Failed)
        }
    }
}

/// The session token that the gateway's answer to a login carries. An
/// answer that holds no string there is of the wrong shape.
pub fn login_token(response: &str) -> (r: Result<String, MtcapError>)
    ensures
        match document_in(response@) {
            None => r is Err && is_unread(response@, r->Err_0),
            Some(document) => {
                let token = json_member(json_member(document, "result"@), "token"@);
                if json_kind(token) is Text {
                    r is Ok && r->Ok_0@ == json_text(token)
                } else {
                    r is Err && r->Err_0 is Protocol
                }
            },
        },
{
    match read_document(response) {
        Ok(document) => {
            let token = member(member(&document, "result"), "token");
            match kind(token) {
                JsonKind::Text => Ok(text(token)),
                _ => Err(MtcapError::Protocol),
            }
        },
        Err(e) => Err(e),
    }
}

} // verus!

//! The gateway's active sessions: devices that have joined, whether or not
//! the allowlist still holds them.
//!
//! A session is known by three texts as the gateway reported them. Which
//! sessions a removal evicts, and which sessions count as old, is decided
//! here; the eviction itself is the caller's work.

use crate::allowlist::{identity_bytes, is_listed};
use crate::answers::{
    document_in, holds_list, is_parse_error, is_unread, list_in, read_document, MtcapError,
};
use crate::devices::{Eui, EUI_LENGTH, EUI_SEPARATOR};
use crate::hex::{parse_fixed_hex, ParseError};
use crate::items::{leading_len, lemma_leading_len_stops, present_len};
use crate::json_value::{
    is_null, item, json_item, json_len, json_member, json_text, len, member, text,
};
use crate::timestamp::{is_stale, parse_timestamp, stale, timestamp_date, Date};
use vstd::prelude::*;
use vstd::string::*;

verus! {

/// One active session as the gateway reports it. A field that the gateway
/// left out holds the text `null`.
#[derive(Clone, Debug, PartialEq, Eq)]
pub struct ActiveDevice {
    pub deveui: String,
    pub last_seen: String,
    pub created_at: String,
}

/// The three texts of an active session.
pub ghost struct ActiveView {
    pub deveui: Seq<char>,
    pub last_seen: Seq<char>,
    pub created_at: Seq<char>,
}

impl View for ActiveDevice {
    type V = ActiveView;

    open spec fn view(&self) -> ActiveView {
        ActiveView {
            deveui: self.deveui@,
            last_seen: self.last_seen@,
            created_at: self.created_at@,
        }
    }
}

/// The sessions as their texts.
pub open spec fn sessions(list: Seq<ActiveDevice>) -> Seq<ActiveView> {
    list.map_values(|session: ActiveDevice| session@)
}

/// The identity of a session, or why its `deveui` cannot be read.
pub open spec fn session_identity(session: ActiveView) -> Result<Seq<u8>, ParseError> {
    parse_fixed_hex(session.deveui, EUI_LENGTH as int, Some(EUI_SEPARATOR))
}

/// Which sessions to evict, and the error that ended the search, if one did.
pub struct Eviction {
    /// The identities of the sessions to evict, in the gateway's order.
    pub sessions: Vec<Eui>,
    /// The error of the first session whose identity could not be read.
    /// Sessions after it were not looked at.
    pub failure: Option<ParseError>,
}

/// The sessions of `list` to evict when the identities `ids` are removed:
/// those of `ids` that come before the first session whose identity cannot be
/// read, and the error of that session, if there is one.
pub open spec fn evicted(list: Seq<ActiveView>, ids: Seq<Seq<u8>>) -> (Seq<Seq<u8>>, Option<
    ParseError,
>)
    decreases list.len(),
{
    if list.len() == 0 {
        (Seq::empty(), None)
    } else {
        let (found, failure) = evicted(list.drop_last(), ids);
        if failure is Some {
            (found, failure)
        } else {
            match session_identity(list.last()) {
                Err(e) => (found, Some(e)),
                Ok(id) => if ids.contains(id) {
                    (found.push(id), None)
                } else {
                    (found, None)
                },
            }
        }
    }
}

/// A failure among the first `k` sessions ends the search for the whole list.
proof fn lemma_evicted_prefix(list: Seq<ActiveView>, ids: Seq<Seq<u8>>, k: int)
    requires
        0 <= k <= list.len(),
        evicted(list.take(k), ids).1 is Some,
    ensures
        evicted(list, ids) == evicted(list.take(k), ids),
    decreases list.len(),
{
    if k < list.len() {
        assert(list.drop_last().take(k) =~= list.take(k));
        lemma_evicted_prefix(list.drop_last(), ids, k);
    } else {
        assert(list.take(k) =~= list);
    }
}

/// Finds the sessions to evict when `identities` are removed.
///
/// The sessions are read in the gateway's order. The search ends at the first
/// session whose identity cannot be read: what was found before it is still
/// to be evicted, and its error is then to be reported.
pub fn sessions_to_evict(active: &Vec<ActiveDevice>, identities: &[Eui]) -> (plan: Eviction)
    ensures
        identity_bytes(plan.sessions@) == evicted(sessions(active@), identity_bytes(identities@)).0,
        plan.failure == evicted(sessions(active@), identity_bytes(identities@)).1,
{
    let ghost all = sessions(active@);
    let ghost ids = identity_bytes(identities@);
    let mut found: Vec<Eui> = Vec::new();
    let mut index: usize = 0;
    assert(all.take(0) =~= Seq::<ActiveView>::empty());
    assert(identity_bytes(found@) =~= evicted(all.take(0), ids).0);
    while index < active.len()
        invariant
            index <= active@.len(),
            all == sessions(active@),
            ids == identity_bytes(identities@),
            identity_bytes(found@) == evicted(all.take(index as int), ids).0,
            evicted(all.take(index as int), ids).1 is None,
        decreases active@.len() - index,
    {
        proof {
            assert(all.take(index + 1).drop_last() =~= all.take(index as int));
            assert(all.take(index + 1).last() == all[index as int]);
            assert(active@[index as int]@ == all[index as int]);
        }
        match Eui::from_str(active[index].deveui.as_str()) {
            Ok(eui) => {
                if is_listed(identities, &eui) {
                    let ghost sofar = identity_bytes(found@);
                    found.push(eui);
                    assert(identity_bytes(found@) =~= sofar.push(eui@));
                }
            },
            Err(e) => {
                proof {
                    lemma_evicted_prefix(all, ids, index + 1);
                }
                return Eviction { sessions: found, failure: Some(e) };
            },
        }
        index = index + 1;
    }
    assert(all.take(index as int) =~= all);
    Eviction { sessions: found, failure: None }
}

/// Whether a session counts as older than `cutoff`: its last-seen timestamp,
/// or else its creation timestamp, can be read and lies on an earlier day.
pub open spec fn session_is_old(session: ActiveView, cutoff: Date) -> bool {
    stale(timestamp_date(session.last_seen), timestamp_date(session.created_at), cutoff)
}

/// How the age of a session is judged: by the day on which it was last seen
/// where that can be read, else by the day on which it was created, and a
/// session of which neither can be read is never old.
pub proof fn lemma_session_age(session: ActiveView, cutoff: Date)
    ensures
        session_is_old(session, cutoff) == match timestamp_date(session.last_seen) {
            Some(seen) => seen.before(cutoff),
            None => match timestamp_date(session.created_at) {
                Some(created) => created.before(cutoff),
                None => false,
            },
        },
{
}

/// The identities of the sessions of `list` that are older than `cutoff`, in
/// their order, or the error of the first such session whose identity cannot
/// be read. Sessions whose timestamps cannot be read are passed over.
pub open spec fn old_sessions(list: Seq<ActiveView>, cutoff: Date) -> Result<
    Seq<Seq<u8>>,
    ParseError,
>
    decreases list.len(),
{
    if list.len() == 0 {
        Ok(Seq::empty())
    } else {
        match old_sessions(list.drop_last(), cutoff) {
            Err(e) => Err(e),
            Ok(found) => if session_is_old(list.last(), cutoff) {
                match session_identity(list.last()) {
                    Err(e) => Err(e),
                    Ok(id) => Ok(found.push(id)),
                }
            } else {
                Ok(found)
            },
        }
    }
}

/// A failure among the first `k` sessions is the failure of the whole list.
proof fn lemma_old_sessions_prefix(list: Seq<ActiveView>, cutoff: Date, k: int)
    requires
        0 <= k <= list.len(),
        old_sessions(list.take(k), cutoff) is Err,
    ensures
        old_sessions(list, cutoff) == old_sessions(list.take(k), cutoff),
    decreases list.len(),
{
    if k < list.len() {
        assert(list.drop_last().take(k) =~= list.take(k));
        lemma_old_sessions_prefix(list.drop_last(), cutoff, k);
    } else {
        assert(list.take(k) =~= list);
    }
}

/// Selects the sessions that are older than `cutoff`.
///
/// A session whose two timestamps both cannot be read is passed over. The
/// identity of each selected session is read; the first that cannot be read
/// fails the selection.
pub fn select_old(active: &Vec<ActiveDevice>, cutoff: &Date) -> (r: Result<Vec<Eui>, ParseError>)
    ensures
        match old_sessions(sessions(active@), *cutoff) {
            Ok(found) => r is Ok && identity_bytes(r->Ok_0@) == found,
            Err(e) => r is Err && r->Err_0 == e,
        },
{
    let ghost all = sessions(active@);
    let mut found: Vec<Eui> = Vec::new();
    let mut index: usize = 0;
    assert(all.take(0) =~= Seq::<ActiveView>::empty());
    assert(identity_bytes(found@) =~= Seq::<Seq<u8>>::empty());
    while index < active.len()
        invariant
            index <= active@.len(),
            all == sessions(active@),
            old_sessions(all.take(index as int), *cutoff) == Ok::<Seq<Seq<u8>>, ParseError>(
                identity_bytes(found@),
            ),
        decreases active@.len() - index,
    {
        proof {
            assert(all.take(index + 1).drop_last() =~= all.take(index as int));
            assert(all.take(index + 1).last() == all[index as int]);
            assert(active@[index as int]@ == all[index as int]);
        }
        let session = &active[index];
        let last_seen = parse_timestamp(session.last_seen.as_str());
        let created_at = match last_seen {
            Some(_) => None,
            None => parse_timestamp(session.created_at.as_str()),
        };
        if is_stale(last_seen, created_at, cutoff) {
            match Eui::from_str(session.deveui.as_str()) {
                Ok(eui) => {
                    let ghost sofar = identity_bytes(found@);
                    found.push(eui);
                    assert(identity_bytes(found@) =~= sofar.push(eui@));
                },
                Err(e) => {
                    proof {
                        lemma_old_sessions_prefix(all, *cutoff, index + 1);
                    }
                    return Err(e);
                },
            }
        }
        index = index + 1;
    }
    assert(all.take(index as int) =~= all);
    Ok(found)
}

/// The prefix of the path of a session's resource.
pub open spec fn session_path_prefix() -> Seq<char> {
    "lora/devices/"@
}

/// The path of the resource of the session that the gateway knows as `deveui`.
pub fn session_path(deveui: &str) -> (path: String)
    ensures
        path@ == session_path_prefix() + deveui@,
{
    "lora/devices/".to_owned().concat(deveui)
}

/// The active session that the JSON object `value` spells.
pub open spec fn session_of(value: json::JsonValue) -> ActiveView {
    ActiveView {
        deveui: json_text(json_member(value, "deveui"@)),
        last_seen: json_text(json_member(value, "last_seen"@)),
        created_at: json_text(json_member(value, "created_at"@)),
    }
}

/// The first `count` items of the JSON array `value` as active sessions.
pub open spec fn sessions_in(value: json::JsonValue, count: nat) -> Seq<ActiveView> {
    Seq::new(count, |i: int| session_of(json_item(value, i)))
}

/// The sessions that the gateway's answer `document` lists before the first
/// `null` item.
pub open spec fn listed_sessions(document: json::JsonValue) -> Seq<ActiveView> {
    sessions_in(json_member(document, "result"@), present_len(json_member(document, "result"@)))
}

/// All items that the gateway's answer `document` lists, as sessions.
pub open spec fn all_sessions(document: json::JsonValue) -> Seq<ActiveView> {
    sessions_in(json_member(document, "result"@), json_len(json_member(document, "result"@)))
}

/// Reads one active session from a JSON object. A member that is missing
/// reads as the text `null`.
pub fn session_from_json(value: &json::JsonValue) -> (session: ActiveDevice)
    ensures
        session@ == session_of(*value),
{
    ActiveDevice {
        deveui: text(member(value, "deveui")),
        last_seen: text(member(value, "last_seen")),
        created_at: text(member(value, "created_at")),
    }
}

/// Reads the active sessions of a JSON array: every item where `every` is
/// set, else the items up to the first `null`.
pub fn sessions_from_json(value: &json::JsonValue, every: bool) -> (list: Vec<ActiveDevice>)
    ensures
        sessions(list@) == sessions_in(
            *value,
            if every {
                json_len(*value)
            } else {
                present_len(*value)
            },
        ),
{
    let count = len(value);
    let mut list: Vec<ActiveDevice> = Vec::new();
    let mut index: usize = 0;
    while index < count
        invariant
            index <= count,
            count == json_len(*value),
            !every ==> leading_len(*value, index as nat) == index,
            list@.len() == index,
            forall|k: int|
                0 <= k < index ==> #[trigger] list@[k]@ == session_of(json_item(*value, k)),
        decreases count - index,
    {
        let current = item(value, index);
        if !every && is_null(current) {
            proof {
                lemma_leading_len_stops(*value, index as nat, count as nat);
            }
            assert(sessions(list@) =~= sessions_in(*value, present_len(*value)));
            return list;
        }
        list.push(session_from_json(current));
        index = index + 1;
    }
    assert(sessions(list@) =~= sessions_in(*value, count as nat));
    list
}

/// The sessions that the gateway reported as active, up to the first `null`
/// item of its list.
pub fn active_sessions(response: &str) -> (r: Result<Vec<ActiveDevice>, MtcapError>)
    ensures
        match document_in(response@) {
            None => r is Err && is_unread(response@, r->Err_0),
            Some(document) => if holds_list(document, false) {
                r is Ok && sessions(r->Ok_0@) == listed_sessions(document)
            } else {
                r is Err && r->Err_0 is Protocol
            },
        },
{
    let document = match read_document(response) {
        Ok(document) => document,
        Err(e) => {
            return Err(e);
        },
    };
    match list_in(&document, false) {
        Ok(list) => Ok(sessions_from_json(list, false)),
        Err(e) => Err(e),
    }
}

/// The sessions to evict when `identities` are removed, among those that the
/// gateway reported as active in `response`.
pub fn eviction_request(response: &str, identities: &[Eui]) -> (r: Result<Eviction, MtcapError>)
    ensures
        match document_in(response@) {
            None => r is Err && is_unread(response@, r->Err_0),
            Some(document) => if holds_list(document, false) {
                &&& r is Ok
                &&& identity_bytes(r->Ok_0.sessions@) == evicted(
                    listed_sessions(document),
                    identity_bytes(identities@),
                ).0
                &&& r->Ok_0.failure == evicted(
                    listed_sessions(document),
                    identity_bytes(identities@),
                ).1
            } else {
                r is Err && r->Err_0 is Protocol
            },
        },
{
    let document = match read_document(response) {
        Ok(document) => document,
        Err(e) => {
            return Err(e);
        },
    };
    match list_in(&document, false) {
        Ok(list) => {
            let active = sessions_from_json(list, false);
            Ok(sessions_to_evict(&active, identities))
        },
        Err(e) => Err(e),
    }
}

/// The identities of the sessions that are older than `cutoff`, among all
/// that the gateway reported as active in `response`.
pub fn old_devices(response: &str, cutoff: &Date) -> (r: Result<Vec<Eui>, MtcapError>)
    ensures
        match document_in(response@) {
            None => r is Err && is_unread(response@, r->Err_0),
            Some(document) => if !holds_list(document, true) {
                r is Err && r->Err_0 is Protocol
            } else {
                match old_sessions(all_sessions(document), *cutoff) {
                    Err(e) => r is Err && is_parse_error(r->Err_0, e),
                    Ok(found) => r is Ok && identity_bytes(r->Ok_0@) == found,
                }
            },
        },
{
    let document = match read_document(response) {
        Ok(document) => document,
        Err(e) => {
            return Err(e);
        },
    };
    let active = match list_in(&document, true) {
        Ok(list) => sessions_from_json(list, true),
        Err(e) => {
            return Err(e);
        },
    };
    match select_old(&active, cutoff) {
        Ok(found) => Ok(found),
        Err(e) => Err(MtcapError::Parse(e)),
    }
}

} // verus!

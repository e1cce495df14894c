//! The allowlist as the gateway spells it: a JSON object with an array of
//! devices.
//!
//! Each request here takes the text of the gateway's answer, or the devices
//! to send, and gives the text of a request body. The requests themselves
//! are the caller's work.

use crate::allowlist::{
    add_or_update, added, entries, first_unreadable, identity_bytes, kept_positions,
    lemma_kept_positions, positions, positions_to_keep, records, replacement, wire_forms, without,
};
use crate::answers::{document_in, is_parse_error, is_unread, read_document, MtcapError};
use crate::devices::{AllowlistEntry, Device, EntryView, Eui};
use crate::items::{
    devices_are_named, leading_len, lemma_leading_items, lemma_leading_len_bound,
    lemma_leading_len_full, lemma_leading_len_stops, names_devices, present_len,
};
use crate::json_value::{
    array_of, dump, duplicate, flag_value, is_null, item, json_dump, json_item, json_kind,
    json_len, json_member, json_null, json_text, kind, len, member, new_object, set_member, text,
    text_value, JsonKind,
};
use vstd::prelude::*;
use vstd::string::*;

verus! {

/// The allowlist entry that the JSON object `value` spells.
pub open spec fn entry_of(value: json::JsonValue) -> EntryView {
    EntryView {
        deveui: json_text(json_member(value, "deveui"@)),
        appeui: json_text(json_member(value, "appeui"@)),
        appkey: json_text(json_member(value, "appkey"@)),
        class: json_text(json_member(value, "class"@)),
        device_profile_id: json_text(json_member(value, "device_profile_id"@)),
        network_profile_id: json_text(json_member(value, "network_profile_id"@)),
    }
}

/// The allowlist entries that the JSON array `value` spells: its items up to
/// the first `null`.
pub open spec fn entries_in(value: json::JsonValue) -> Seq<EntryView> {
    Seq::new(present_len(value), |i: int| entry_of(json_item(value, i)))
}

/// Reads one allowlist entry from a JSON object. A member that is missing
/// reads as the text `null`.
pub fn entry_from_json(value: &json::JsonValue) -> (entry: AllowlistEntry)
    ensures
        entry@ == entry_of(*value),
{
    AllowlistEntry {
        deveui: text(member(value, "deveui")),
        appeui: text(member(value, "appeui")),
        appkey: text(member(value, "appkey")),
        class: text(member(value, "class")),
        device_profile_id: text(member(value, "device_profile_id")),
        network_profile_id: text(member(value, "network_profile_id")),
    }
}

/// Reads the allowlist entries of a JSON array, up to its first `null` item.
pub fn entries_from_json(value: &json::JsonValue) -> (list: Vec<AllowlistEntry>)
    ensures
        entries(list@) == entries_in(*value),
{
    let count = len(value);
    let mut list: Vec<AllowlistEntry> = Vec::new();
    let mut index: usize = 0;
    while index < count
        invariant
            index <= count,
            count == json_len(*value),
            leading_len(*value, index as nat) == index,
            list@.len() == index,
            forall|k: int| 0 <= k < index ==> #[trigger] list@[k]@ == entry_of(json_item(*value, k)),
        decreases count - index,
    {
        let current = item(value, index);
        if is_null(current) {
            proof {
                lemma_leading_len_stops(*value, index as nat, count as nat);
            }
            assert(entries(list@) =~= entries_in(*value));
            return list;
        }
        list.push(entry_from_json(current));
        index = index + 1;
    }
    assert(entries(list@) =~= entries_in(*value));
    list
}

/// The keys of an allowlist entry are six different texts.
proof fn lemma_entry_keys()
    ensures
        "deveui"@ != "appeui"@,
        "deveui"@ != "appkey"@,
        "deveui"@ != "class"@,
        "deveui"@ != "device_profile_id"@,
        "deveui"@ != "network_profile_id"@,
        "appeui"@ != "appkey"@,
        "appeui"@ != "class"@,
        "appeui"@ != "device_profile_id"@,
        "appeui"@ != "network_profile_id"@,
        "appkey"@ != "class"@,
        "appkey"@ != "device_profile_id"@,
        "appkey"@ != "network_profile_id"@,
        "class"@ != "device_profile_id"@,
        "class"@ != "network_profile_id"@,
        "device_profile_id"@ != "network_profile_id"@,
{
    reveal_strlit("deveui");
    reveal_strlit("appeui");
    reveal_strlit("appkey");
    reveal_strlit("class");
    reveal_strlit("device_profile_id");
    reveal_strlit("network_profile_id");
    assert("deveui"@[0] != "appeui"@[0]);
    assert("deveui"@[0] != "appkey"@[0]);
    assert("appeui"@[3] != "appkey"@[3]);
    assert("deveui"@.len() != "device_profile_id"@.len());
    assert("deveui"@.len() != "network_profile_id"@.len());
    assert("deveui"@.len() != "class"@.len());
    assert("class"@.len() != "device_profile_id"@.len());
    assert("class"@.len() != "network_profile_id"@.len());
    assert("device_profile_id"@.len() != "network_profile_id"@.len());
}

/// Whether `key` is one of the six keys of an allowlist entry.
pub open spec fn is_entry_key(key: Seq<char>) -> bool {
    ||| key == "deveui"@
    ||| key == "appeui"@
    ||| key == "appkey"@
    ||| key == "class"@
    ||| key == "device_profile_id"@
    ||| key == "network_profile_id"@
}

/// Whether `after` is `before` with the six members of an allowlist entry
/// set to the texts of `entry`, and every other member as it was.
pub open spec fn overwritten(after: json::JsonValue, before: json::JsonValue, entry: EntryView) -> bool {
    &&& !json_null(after)
    &&& entry_of(after) == entry
    &&& forall|key: Seq<char>|
        !is_entry_key(key) ==> #[trigger] json_member(after, key) == json_member(before, key)
}

/// Sets the six members of an allowlist entry in `value` to the texts of
/// `entry`. What else `value` holds stays.
pub fn overwrite_entry(value: json::JsonValue, entry: &AllowlistEntry) -> (after: json::JsonValue)
    ensures
        overwritten(after, value, entry@),
{
    proof {
        lemma_entry_keys();
    }
    let mut after = value;
    set_member(&mut after, "deveui", text_value(entry.deveui.as_str()));
    set_member(&mut after, "appeui", text_value(entry.appeui.as_str()));
    set_member(&mut after, "appkey", text_value(entry.appkey.as_str()));
    set_member(&mut after, "class", text_value(entry.class.as_str()));
    set_member(&mut after, "device_profile_id", text_value(entry.device_profile_id.as_str()));
    set_member(&mut after, "network_profile_id", text_value(entry.network_profile_id.as_str()));
    after
}

/// Writes one allowlist entry as a JSON object of six strings and nothing else.
pub fn entry_to_json(entry: &AllowlistEntry) -> (value: json::JsonValue)
    ensures
        !json_null(value),
        entry_of(value) == entry@,
        forall|key: Seq<char>| !is_entry_key(key) ==> json_null(#[trigger] json_member(value, key)),
{
    overwrite_entry(new_object(), entry)
}

/// Whether two entries hold the same six texts.
pub fn same_texts(one: &AllowlistEntry, other: &AllowlistEntry) -> (same: bool)
    ensures
        same == (one@ == other@),
{
    one.deveui == other.deveui && one.appeui == other.appeui && one.appkey == other.appkey
        && one.class == other.class && one.device_profile_id == other.device_profile_id
        && one.network_profile_id == other.network_profile_id
}

/// Whether the item `after` stands for `entry` in place of the reported item
/// `before`: it spells `entry`; it is `before` itself where that spelled
/// `entry` already; and what else `before` held, it holds too.
pub open spec fn carried(after: json::JsonValue, before: json::JsonValue, entry: EntryView) -> bool {
    &&& overwritten(after, before, entry)
    &&& entry_of(before) == entry ==> after == before
}

/// Whether the item `value` spells `entry` and holds nothing else.
pub open spec fn fresh(value: json::JsonValue, entry: EntryView) -> bool {
    &&& !json_null(value)
    &&& entry_of(value) == entry
    &&& forall|key: Seq<char>| !is_entry_key(key) ==> json_null(#[trigger] json_member(value, key))
}

/// Whether the JSON array `devices` holds `list` as an update of the array
/// `reported`: one item for each entry, in order; where `reported` has an
/// item at the same place, that item carried over; past its end, a fresh one.
pub open spec fn updates(devices: json::JsonValue, reported: json::JsonValue, list: Seq<EntryView>) -> bool {
    &&& json_kind(devices) is Array
    &&& json_len(devices) == list.len()
    &&& entries_in(devices) == list
    &&& forall|i: int|
        0 <= i < list.len() ==> if i < present_len(reported) {
            carried(#[trigger] json_item(devices, i), json_item(reported, i), list[i])
        } else {
            fresh(#[trigger] json_item(devices, i), list[i])
        }
}

/// Writes the allowlist `list` as a JSON array that updates the array
/// `reported`.
///
/// An entry that the gateway reported at the same place and that is unchanged
/// is sent back as it was reported. A changed one has its six texts set and
/// keeps what else the gateway reported of it. An entry past the end of what
/// was reported is written anew.
pub fn updated_devices(reported: &json::JsonValue, list: &Vec<AllowlistEntry>) -> (devices:
    json::JsonValue)
    ensures
        updates(devices, *reported, entries(list@)),
{
    let known = entries_from_json(reported);
    let mut items: Vec<json::JsonValue> = Vec::new();
    let mut index: usize = 0;
    assert(entries(known@).len() == known@.len());
    while index < list.len()
        invariant
            index <= list@.len(),
            items@.len() == index,
            entries(known@) == entries_in(*reported),
            known@.len() == present_len(*reported),
            forall|k: int|
                0 <= k < index ==> if k < present_len(*reported) {
                    carried(#[trigger] items@[k], json_item(*reported, k), list@[k]@)
                } else {
                    fresh(#[trigger] items@[k], list@[k]@)
                },
        decreases list@.len() - index,
    {
        let entry = &list[index];
        if index < known.len() {
            proof {
                lemma_leading_items(*reported, json_len(*reported), index as int);
                assert(entries(known@)[index as int] == known@[index as int]@);
            }
            let before = item(reported, index);
            if same_texts(&known[index], entry) {
                items.push(duplicate(before));
            } else {
                items.push(overwrite_entry(duplicate(before), entry));
            }
        } else {
            items.push(entry_to_json(entry));
        }
        index = index + 1;
    }
    let ghost spelled = items@;
    let devices = array_of(items);
    proof {
        assert forall|i: int| 0 <= i < spelled.len() implies !json_null(
            #[trigger] json_item(devices, i),
        ) && entry_of(json_item(devices, i)) == list@[i]@ by {
            assert(json_item(devices, i) == spelled[i]);
        }
        lemma_leading_len_full(devices, spelled.len());
        assert(entries_in(devices) =~= entries(list@));
        assert forall|i: int| 0 <= i < entries(list@).len() implies if i < present_len(
            *reported,
        ) {
            carried(#[trigger] json_item(devices, i), json_item(*reported, i), entries(list@)[i])
        } else {
            fresh(#[trigger] json_item(devices, i), entries(list@)[i])
        } by {
            assert(json_item(devices, i) == spelled[i]);
        }
    }
    devices
}

/// Whether the JSON array `devices` holds exactly the items of `reported` at
/// the positions `places`, in that order.
pub open spec fn selects(devices: json::JsonValue, reported: json::JsonValue, places: Seq<int>) -> bool {
    &&& json_kind(devices) is Array
    &&& json_len(devices) == places.len()
    &&& forall|j: int|
        0 <= j < places.len() ==> #[trigger] json_item(devices, j) == json_item(
            reported,
            places[j],
        )
}

/// The JSON array of the items of `reported` at the positions `places`.
pub fn selected_devices(reported: &json::JsonValue, places: &Vec<usize>) -> (devices:
    json::JsonValue)
    ensures
        selects(devices, *reported, positions(places@)),
{
    let mut items: Vec<json::JsonValue> = Vec::new();
    let mut j: usize = 0;
    while j < places.len()
        invariant
            j <= places@.len(),
            items@.len() == j,
            forall|k: int|
                0 <= k < j ==> #[trigger] items@[k] == json_item(*reported, places@[k] as int),
        decreases places@.len() - j,
    {
        items.push(duplicate(item(reported, places[j])));
        j = j + 1;
    }
    let ghost picked = items@;
    let devices = array_of(items);
    proof {
        assert forall|k: int| 0 <= k < positions(places@).len() implies #[trigger] json_item(
            devices,
            k,
        ) == json_item(*reported, positions(places@)[k]) by {
            assert(json_item(devices, k) == picked[k]);
        }
    }
    devices
}

/// Items taken from the positions that a removal keeps spell what the
/// removal leaves.
pub proof fn lemma_selected_entries(
    devices: json::JsonValue,
    reported: json::JsonValue,
    ids: Seq<Seq<u8>>,
)
    requires
        selects(devices, reported, kept_positions(entries_in(reported), ids)),
    ensures
        entries_in(devices) == without(entries_in(reported), ids),
{
    let list = entries_in(reported);
    let places = kept_positions(list, ids);
    lemma_kept_positions(list, ids);
    assert forall|j: int| 0 <= j < places.len() implies !json_null(
        #[trigger] json_item(devices, j),
    ) by {
        lemma_leading_items(reported, json_len(reported), places[j]);
    }
    lemma_leading_len_full(devices, places.len());
    assert(entries_in(devices) =~= without(list, ids));
}

/// The allowlist object of the gateway's answer `document`.
pub open spec fn allowlist_in(document: json::JsonValue) -> json::JsonValue {
    json_member(document, "result"@)
}

/// The array of devices of the allowlist object `allowlist`.
pub open spec fn devices_in(allowlist: json::JsonValue) -> json::JsonValue {
    json_member(allowlist, "devices"@)
}

/// Whether `value` is the allowlist object `base` with other devices: under
/// every other key it holds what `base` holds there.
pub open spec fn same_but_devices(value: json::JsonValue, base: json::JsonValue) -> bool {
    forall|key: Seq<char>|
        key != "devices"@ ==> #[trigger] json_member(value, key) == json_member(base, key)
}

/// Whether `body` is the JSON text of the allowlist object `base` with the
/// array `devices` in place of its own.
pub open spec fn is_allowlist_body(body: Seq<char>, base: json::JsonValue, devices: json::JsonValue) -> bool {
    exists|value: json::JsonValue|
        {
            &&& #[trigger] json_dump(value) == body
            &&& devices_in(value) == devices
            &&& same_but_devices(value, base)
        }
}

/// Writes the allowlist object `base` with the array `devices` in place of
/// its own.
pub fn allowlist_body(base: json::JsonValue, devices: json::JsonValue) -> (body: String)
    ensures
        is_allowlist_body(body@, base, devices),
{
    let mut value = base;
    set_member(&mut value, "devices", devices);
    let ghost written = value;
    let body = dump(value);
    assert(json_dump(written) == body@);
    body
}

/// Whether the gateway's answer `document` holds an allowlist: under
/// `result`, an array `devices` of which each item before the first `null`
/// holds a string under `deveui`.
pub open spec fn holds_allowlist(document: json::JsonValue) -> bool {
    &&& json_kind(devices_in(allowlist_in(document))) is Array
    &&& names_devices(
        devices_in(allowlist_in(document)),
        present_len(devices_in(allowlist_in(document))),
    )
}

/// The array of devices of the allowlist object `allowlist`. An allowlist
/// that holds no such array is of the wrong shape.
pub fn reported_devices<'a>(allowlist: &'a json::JsonValue) -> (r: Result<
    &'a json::JsonValue,
    MtcapError,
>)
    ensures
        if json_kind(devices_in(*allowlist)) is Array && names_devices(
            devices_in(*allowlist),
            present_len(devices_in(*allowlist)),
        ) {
            r is Ok && *r->Ok_0 == devices_in(*allowlist)
        } else {
            r is Err && r->Err_0 is Protocol
        },
{
    let reported = member(allowlist, "devices");
    match kind(reported) {
        JsonKind::Array => {},
        _ => {
            return Err(MtcapError::Protocol);
        },
    }
    if devices_are_named(reported, false) {
        Ok(reported)
    } else {
        Err(MtcapError::Protocol)
    }
}

/// The number of devices on the allowlist that the gateway reported. An
/// answer without an array of devices is of the wrong shape.
pub fn count_devices(response: &str) -> (r: Result<usize, MtcapError>)
    ensures
        match document_in(response@) {
            None => r is Err && is_unread(response@, r->Err_0),
            Some(document) => if holds_allowlist(document) {
                r is Ok && r->Ok_0 == json_len(devices_in(allowlist_in(document)))
            } else {
                r is Err && r->Err_0 is Protocol
            },
        },
{
    match read_document(response) {
        Ok(document) => match reported_devices(member(&document, "result")) {
            Ok(reported) => Ok(len(reported)),
            Err(e) => Err(e),
        },
        Err(e) => Err(e),
    }
}

/// Whether `body` enables an allowlist of exactly the entries `list`: it is
/// the JSON text of an object whose `enabled` is the boolean `true`, whose
/// `devices` is an array of one fresh item for each entry, and which holds
/// nothing else.
pub open spec fn is_enable_body(body: Seq<char>, list: Seq<EntryView>) -> bool {
    exists|value: json::JsonValue|
        {
            &&& #[trigger] json_dump(value) == body
            &&& json_kind(json_member(value, "enabled"@)) is Boolean
            &&& json_text(json_member(value, "enabled"@)) == "true"@
            &&& json_kind(devices_in(value)) is Array
            &&& json_len(devices_in(value)) == list.len()
            &&& entries_in(devices_in(value)) == list
            &&& forall|i: int|
                0 <= i < list.len() ==> fresh(#[trigger] json_item(devices_in(value), i), list[i])
            &&& forall|key: Seq<char>|
                key != "devices"@ && key != "enabled"@ ==> json_null(
                    #[trigger] json_member(value, key),
                )
        }
}

/// The request body that replaces the gateway's allowlist by exactly
/// `devices` and enables it. For no device, the allowlist is enabled and empty.
pub fn enable_request(devices: &[Device]) -> (body: String)
    ensures
        is_enable_body(body@, wire_forms(records(devices@))),
{
    proof {
        reveal_strlit("enabled");
        reveal_strlit("devices");
    }
    let mut base = new_object();
    set_member(&mut base, "enabled", flag_value(true));
    let nothing = array_of(Vec::new());
    proof {
        lemma_leading_len_bound(nothing, json_len(nothing));
    }
    let ghost enabled = base;
    let listed = updated_devices(&nothing, &replacement(devices));
    let body = allowlist_body(base, listed);
    proof {
        let list = wire_forms(records(devices@));
        let value = choose|value: json::JsonValue|
            {
                &&& #[trigger] json_dump(value) == body@
                &&& devices_in(value) == listed
                &&& same_but_devices(value, enabled)
            };
        assert("enabled"@[0] != "devices"@[0]);
        assert(json_member(value, "enabled"@) == json_member(enabled, "enabled"@));
        assert forall|key: Seq<char>| key != "devices"@ && key != "enabled"@ implies json_null(
            #[trigger] json_member(value, key),
        ) by {
            assert(json_member(value, key) == json_member(enabled, key));
        }
        assert forall|i: int| 0 <= i < list.len() implies fresh(
            #[trigger] json_item(devices_in(value), i),
            list[i],
        ) by {
            assert(present_len(nothing) == 0);
        }
        assert(is_enable_body(body@, list));
    }
    body
}

/// Whether `body` is the JSON text of the reported allowlist object
/// `allowlist` with its devices updated to `list`.
pub open spec fn is_update_body(body: Seq<char>, allowlist: json::JsonValue, list: Seq<EntryView>) -> bool {
    exists|value: json::JsonValue|
        {
            &&& #[trigger] json_dump(value) == body
            &&& updates(devices_in(value), devices_in(allowlist), list)
            &&& same_but_devices(value, allowlist)
        }
}

/// The request body that adds `devices` to the allowlist that the gateway
/// reported in `response`, or updates them there.
///
/// The body holds the reported allowlist object with its devices updated.
/// What else the gateway reported, of the allowlist and of each device, is
/// sent back unchanged.
pub fn add_request(response: &str, devices: &[Device]) -> (r: Result<String, MtcapError>)
    ensures
        match document_in(response@) {
            None => r is Err && is_unread(response@, r->Err_0),
            Some(document) => if !holds_allowlist(document) {
                r is Err && r->Err_0 is Protocol
            } else {
                match added(entries_in(devices_in(allowlist_in(document))), records(devices@)) {
                    Err(e) => r is Err && is_parse_error(r->Err_0, e),
                    Ok(list) => r is Ok && is_update_body(r->Ok_0@, allowlist_in(document), list),
                }
            },
        },
{
    let document = match read_document(response) {
        Ok(document) => document,
        Err(e) => {
            return Err(e);
        },
    };
    let allowlist = member(&document, "result");
    let reported = match reported_devices(allowlist) {
        Ok(reported) => reported,
        Err(e) => {
            return Err(e);
        },
    };
    match add_or_update(entries_from_json(reported), devices) {
        Ok(list) => Ok(allowlist_body(duplicate(allowlist), updated_devices(reported, &list))),
        Err(e) => Err(MtcapError::Parse(e)),
    }
}

/// Whether `body` is the JSON text of the reported allowlist object
/// `allowlist` without the devices of the identities `ids`: its devices are
/// the reported items that belong to none of them, as they were reported.
pub open spec fn is_removal_body(body: Seq<char>, allowlist: json::JsonValue, ids: Seq<Seq<u8>>) -> bool {
    exists|value: json::JsonValue|
        {
            &&& #[trigger] json_dump(value) == body
            &&& selects(
                devices_in(value),
                devices_in(allowlist),
                kept_positions(entries_in(devices_in(allowlist)), ids),
            )
            &&& entries_in(devices_in(value)) == without(entries_in(devices_in(allowlist)), ids)
            &&& same_but_devices(value, allowlist)
        }
}

/// The request body that takes the devices of `identities` off the allowlist
/// that the gateway reported in `response`.
pub fn remove_request(response: &str, identities: &[Eui]) -> (r: Result<String, MtcapError>)
    ensures
        match document_in(response@) {
            None => r is Err && is_unread(response@, r->Err_0),
            Some(document) => if !holds_allowlist(document) {
                r is Err && r->Err_0 is Protocol
            } else {
                match first_unreadable(entries_in(devices_in(allowlist_in(document)))) {
                    Some(e) => r is Err && is_parse_error(r->Err_0, e),
                    None => r is Ok && is_removal_body(
                        r->Ok_0@,
                        allowlist_in(document),
                        identity_bytes(identities@),
                    ),
                }
            },
        },
{
    let document = match read_document(response) {
        Ok(document) => document,
        Err(e) => {
            return Err(e);
        },
    };
    let allowlist = member(&document, "result");
    let reported = match reported_devices(allowlist) {
        Ok(reported) => reported,
        Err(e) => {
            return Err(e);
        },
    };
    match positions_to_keep(&entries_from_json(reported), identities) {
        Ok(places) => {
            let kept = selected_devices(reported, &places);
            proof {
                lemma_selected_entries(kept, *reported, identity_bytes(identities@));
            }
            Ok(allowlist_body(duplicate(allowlist), kept))
        },
        Err(e) => Err(MtcapError::Parse(e)),
    }
}

} // verus!

//! The rules by which a desired set of devices is reconciled with the
//! allowlist that the gateway holds.
//!
//! An allowlist is a sequence of entries in the gateway's order. An entry
//! belongs to the identity that its `deveui` text parses to. The operations
//! here take the allowlist as the gateway reported it and give the allowlist
//! to write back; they read every entry's identity and fail on the first one
//! that cannot be read.

use crate::devices::{
    wire_form, AllowlistEntry, Device, DeviceView, EntryView, Eui, EUI_LENGTH, EUI_SEPARATOR,
};
use crate::hex::{lemma_round_trip, parse_fixed_hex, ParseError};
use vstd::prelude::*;

verus! {

/// The identity that an entry belongs to, or why its `deveui` cannot be read.
pub open spec fn entry_identity(entry: EntryView) -> Result<Seq<u8>, ParseError> {
    parse_fixed_hex(entry.deveui, EUI_LENGTH as int, Some(EUI_SEPARATOR))
}

/// The entries of an allowlist as their texts.
pub open spec fn entries(list: Seq<AllowlistEntry>) -> Seq<EntryView> {
    list.map_values(|entry: AllowlistEntry| entry@)
}

/// The device records as what they hold.
pub open spec fn records(devices: Seq<Device>) -> Seq<DeviceView> {
    devices.map_values(|device: Device| device@)
}

/// The identities as their bytes.
pub open spec fn identity_bytes(identities: Seq<Eui>) -> Seq<Seq<u8>> {
    identities.map_values(|eui: Eui| eui@)
}

/// The error of the first entry of `list` whose identity cannot be read, if
/// there is such an entry.
pub open spec fn first_unreadable(list: Seq<EntryView>) -> Option<ParseError>
    decreases list.len(),
{
    if list.len() == 0 {
        None
    } else {
        match first_unreadable(list.drop_last()) {
            Some(e) => Some(e),
            None => match entry_identity(list.last()) {
                Err(e) => Some(e),
                Ok(_) => None,
            },
        }
    }
}

/// Whether `list` has an entry of the identity `id`.
pub open spec fn holds(list: Seq<EntryView>, id: Seq<u8>) -> bool {
    exists|i: int| 0 <= i < list.len() && entry_identity(#[trigger] list[i]) == Ok::<
        Seq<u8>,
        ParseError,
    >(id)
}

/// The entry that takes the place of `entry` when `device` is written to the
/// allowlist: the device's own entry where the identities agree.
pub open spec fn replaced(entry: EntryView, device: DeviceView) -> EntryView {
    if entry_identity(entry) == Ok::<Seq<u8>, ParseError>(device.device_eui) {
        wire_form(device)
    } else {
        entry
    }
}

/// The allowlist after `device` was added or updated: each entry of the
/// device's identity is overwritten in place, and where there is none the
/// device's entry is appended.
pub open spec fn upserted(list: Seq<EntryView>, device: DeviceView) -> Seq<EntryView> {
    if holds(list, device.device_eui) {
        Seq::new(list.len(), |i: int| replaced(list[i], device))
    } else {
        list.push(wire_form(device))
    }
}

/// The allowlist after each of `devices` was added or updated in turn, or the
/// error of the first entry that could not be read when a device was looked up.
pub open spec fn added(list: Seq<EntryView>, devices: Seq<DeviceView>) -> Result<
    Seq<EntryView>,
    ParseError,
>
    decreases devices.len(),
{
    if devices.len() == 0 {
        Ok(list)
    } else {
        match added(list, devices.drop_last()) {
            Err(e) => Err(e),
            Ok(sofar) => match first_unreadable(sofar) {
                Some(e) => Err(e),
                None => Ok(upserted(sofar, devices.last())),
            },
        }
    }
}

/// Whether the entry belongs to one of the identities `ids`.
pub open spec fn entry_listed(entry: EntryView, ids: Seq<Seq<u8>>) -> bool {
    match entry_identity(entry) {
        Ok(id) => ids.contains(id),
        Err(_) => false,
    }
}

/// The entries of `list` that belong to none of `ids`, in their order.
pub open spec fn without(list: Seq<EntryView>, ids: Seq<Seq<u8>>) -> Seq<EntryView>
    decreases list.len(),
{
    if list.len() == 0 {
        list
    } else if entry_listed(list.last(), ids) {
        without(list.drop_last(), ids)
    } else {
        without(list.drop_last(), ids).push(list.last())
    }
}

/// Whether the executable allowlist `r` is the value `model`.
pub open spec fn allowlist_is(
    r: Result<Vec<AllowlistEntry>, ParseError>,
    model: Result<Seq<EntryView>, ParseError>,
) -> bool {
    match model {
        Ok(list) => r is Ok && entries(r->Ok_0@) == list,
        Err(e) => r is Err && r->Err_0 == e,
    }
}

/// An unreadable entry in a prefix is the first unreadable entry of the whole.
proof fn lemma_first_unreadable_prefix(list: Seq<EntryView>, k: int)
    requires
        0 <= k <= list.len(),
        first_unreadable(list.take(k)) is Some,
    ensures
        first_unreadable(list) == first_unreadable(list.take(k)),
    decreases list.len(),
{
    if k < list.len() {
        assert(list.drop_last().take(k) =~= list.take(k));
        lemma_first_unreadable_prefix(list.drop_last(), k);
    } else {
        assert(list.take(k) =~= list);
    }
}

/// Reading one more entry: the prefix stays readable exactly if that entry is.
proof fn lemma_first_unreadable_step(list: Seq<EntryView>, k: int)
    requires
        0 <= k < list.len(),
        first_unreadable(list.take(k)) is None,
    ensures
        first_unreadable(list.take(k + 1)) == match entry_identity(list[k]) {
            Err(e) => Some(e),
            Ok(_) => None,
        },
{
    assert(list.take(k + 1).drop_last() =~= list.take(k));
    assert(list.take(k + 1).last() == list[k]);
}

/// Whether `identities` holds `id`.
pub fn is_listed(identities: &[Eui], id: &Eui) -> (found: bool)
    ensures
        found == identity_bytes(identities@).contains(id@),
{
    let mut i: usize = 0;
    while i < identities.len()
        invariant
            i <= identities@.len(),
            forall|k: int| 0 <= k < i ==> identity_bytes(identities@)[k] != id@,
        decreases identities@.len() - i,
    {
        if identities[i].equals(id) {
            assert(identity_bytes(identities@)[i as int] == id@);
            return true;
        }
        i = i + 1;
    }
    false
}

/// Adds `device` to the allowlist or updates it there.
///
/// Every entry is read. Each entry of the device's identity is overwritten
/// with the device's entry; where there is none, the entry is appended.
pub fn upsert(list: Vec<AllowlistEntry>, device: &Device) -> (r: Result<
    Vec<AllowlistEntry>,
    ParseError,
>)
    ensures
        allowlist_is(
            r,
            match first_unreadable(entries(list@)) {
                Some(e) => Err(e),
                None => Ok(upserted(entries(list@), device@)),
            },
        ),
{
    let ghost before = entries(list@);
    let ghost id = device@.device_eui;
    let mut current = list;
    let mut included = false;
    let mut index: usize = 0;
    assert(before.take(0) =~= Seq::<EntryView>::empty());
    while index < current.len()
        invariant
            index <= current@.len(),
            current@.len() == before.len(),
            id == device@.device_eui,
            before == entries(list@),
            first_unreadable(before.take(index as int)) is None,
            included == holds(before.take(index as int), id),
            forall|k: int| 0 <= k < index ==> #[trigger] current@[k]@ == replaced(before[k], device@),
            forall|k: int| index <= k < current@.len() ==> #[trigger] current@[k]@ == before[k],
        decreases current@.len() - index,
    {
        proof {
            lemma_first_unreadable_step(before, index as int);
            assert(current@[index as int]@ == before[index as int]);
        }
        let existing = match Eui::from_str(current[index].deveui.as_str()) {
            Ok(eui) => eui,
            Err(e) => {
                proof {
                    lemma_first_unreadable_prefix(before, index + 1);
                }
                return Err(e);
            },
        };
        let same = existing.equals(device.device_eui());
        if same {
            current[index] = device.to_wire();
            included = true;
        }
        proof {
            let shorter = before.take(index as int);
            let longer = before.take(index + 1);
            if holds(shorter, id) {
                let w = choose|w: int|
                    0 <= w < shorter.len() && entry_identity(#[trigger] shorter[w]) == Ok::<
                        Seq<u8>,
                        ParseError,
                    >(id);
                assert(longer[w] == shorter[w]);
            }
            if same {
                assert(longer[index as int] == before[index as int]);
            }
            if holds(longer, id) && !same {
                let w = choose|w: int|
                    0 <= w < longer.len() && entry_identity(#[trigger] longer[w]) == Ok::<
                        Seq<u8>,
                        ParseError,
                    >(id);
                assert(w < index);
                assert(shorter[w] == longer[w]);
            }
        }
        index = index + 1;
    }
    assert(before.take(index as int) =~= before);
    if !included {
        current.push(device.to_wire());
    }
    assert(entries(current@) =~= upserted(before, device@));
    Ok(current)
}

/// Adds each of `devices` to the allowlist or updates it there, one after the
/// other, so that of two records of one identity the later one stays.
pub fn add_or_update(list: Vec<AllowlistEntry>, devices: &[Device]) -> (r: Result<
    Vec<AllowlistEntry>,
    ParseError,
>)
    ensures
        allowlist_is(r, added(entries(list@), records(devices@))),
{
    let ghost before = entries(list@);
    let mut current = list;
    let mut i: usize = 0;
    assert(records(devices@).take(0) =~= Seq::<DeviceView>::empty());
    while i < devices.len()
        invariant
            i <= devices@.len(),
            before == entries(list@),
            added(before, records(devices@).take(i as int)) == Ok::<Seq<EntryView>, ParseError>(
                entries(current@),
            ),
        decreases devices@.len() - i,
    {
        proof {
            let all = records(devices@);
            assert(all.take(i + 1).drop_last() =~= all.take(i as int));
            assert(all.take(i + 1).last() == devices@[i as int]@);
        }
        match upsert(current, &devices[i]) {
            Ok(next) => {
                current = next;
            },
            Err(e) => {
                proof {
                    lemma_added_prefix(before, records(devices@), i + 1);
                }
                return Err(e);
            },
        }
        i = i + 1;
    }
    assert(records(devices@).take(i as int) =~= records(devices@));
    Ok(current)
}

/// A failure while the first `k` devices are added is the failure of the whole.
proof fn lemma_added_prefix(list: Seq<EntryView>, devices: Seq<DeviceView>, k: int)
    requires
        0 <= k <= devices.len(),
        added(list, devices.take(k)) is Err,
    ensures
        added(list, devices) == added(list, devices.take(k)),
    decreases devices.len(),
{
    if k < devices.len() {
        assert(devices.drop_last().take(k) =~= devices.take(k));
        lemma_added_prefix(list, devices.drop_last(), k);
    } else {
        assert(devices.take(k) =~= devices);
    }
}

/// The positions of the entries of `list` that belong to none of `ids`, in
/// ascending order.
pub open spec fn kept_positions(list: Seq<EntryView>, ids: Seq<Seq<u8>>) -> Seq<int>
    decreases list.len(),
{
    if list.len() == 0 {
        Seq::empty()
    } else if entry_listed(list.last(), ids) {
        kept_positions(list.drop_last(), ids)
    } else {
        kept_positions(list.drop_last(), ids).push(list.len() - 1)
    }
}

/// The positions as mathematical integers.
pub open spec fn positions(indices: Seq<usize>) -> Seq<int> {
    indices.map_values(|index: usize| index as int)
}

/// What a removal keeps is what stands at the positions kept, in that order.
pub proof fn lemma_kept_positions(list: Seq<EntryView>, ids: Seq<Seq<u8>>)
    ensures
        kept_positions(list, ids).len() == without(list, ids).len(),
        forall|j: int|
            0 <= j < kept_positions(list, ids).len() ==> 0 <= #[trigger] kept_positions(list, ids)[j]
                < list.len() && without(list, ids)[j] == list[kept_positions(list, ids)[j]],
    decreases list.len(),
{
    if list.len() > 0 {
        let shorter = list.drop_last();
        lemma_kept_positions(shorter, ids);
        assert forall|j: int| 0 <= j < kept_positions(list, ids).len() implies 0
            <= #[trigger] kept_positions(list, ids)[j] < list.len() && without(list, ids)[j]
            == list[kept_positions(list, ids)[j]] by {
            if j < kept_positions(shorter, ids).len() {
                assert(kept_positions(list, ids)[j] == kept_positions(shorter, ids)[j]);
                assert(shorter[kept_positions(shorter, ids)[j]] == list[kept_positions(
                    shorter,
                    ids,
                )[j]]);
            }
        }
    }
}

/// Finds the entries that stay when the identities `identities` are removed:
/// their positions in `list`, in ascending order.
pub fn positions_to_keep(list: &Vec<AllowlistEntry>, identities: &[Eui]) -> (r: Result<
    Vec<usize>,
    ParseError,
>)
    ensures
        match first_unreadable(entries(list@)) {
            Some(e) => r is Err && r->Err_0 == e,
            None => r is Ok && positions(r->Ok_0@) == kept_positions(
                entries(list@),
                identity_bytes(identities@),
            ),
        },
{
    let ghost before = entries(list@);
    let ghost ids = identity_bytes(identities@);
    let mut kept: Vec<usize> = Vec::new();
    let mut index: usize = 0;
    assert(before.take(0) =~= Seq::<EntryView>::empty());
    assert(positions(kept@) =~= kept_positions(before.take(0), ids));
    while index < list.len()
        invariant
            index <= list@.len(),
            before == entries(list@),
            ids == identity_bytes(identities@),
            first_unreadable(before.take(index as int)) is None,
            positions(kept@) == kept_positions(before.take(index as int), ids),
        decreases list@.len() - index,
    {
        proof {
            lemma_first_unreadable_step(before, index as int);
            assert(before.take(index + 1).drop_last() =~= before.take(index as int));
            assert(before.take(index + 1).last() == before[index as int]);
            assert(list@[index as int]@ == before[index as int]);
        }
        let existing = match Eui::from_str(list[index].deveui.as_str()) {
            Ok(eui) => eui,
            Err(e) => {
                proof {
                    lemma_first_unreadable_prefix(before, index + 1);
                }
                return Err(e);
            },
        };
        if !is_listed(identities, &existing) {
            let ghost sofar = positions(kept@);
            kept.push(index);
            assert(positions(kept@) =~= sofar.push(index as int));
        }
        index = index + 1;
    }
    assert(before.take(index as int) =~= before);
    Ok(kept)
}

/// Takes the entries of the identities `identities` out of the allowlist.
pub fn remove(list: &Vec<AllowlistEntry>, identities: &[Eui]) -> (r: Result<
    Vec<AllowlistEntry>,
    ParseError,
>)
    ensures
        allowlist_is(
            r,
            match first_unreadable(entries(list@)) {
                Some(e) => Err(e),
                None => Ok(without(entries(list@), identity_bytes(identities@))),
            },
        ),
{
    let ghost before = entries(list@);
    let ghost ids = identity_bytes(identities@);
    let places = match positions_to_keep(list, identities) {
        Ok(places) => places,
        Err(e) => {
            return Err(e);
        },
    };
    proof {
        lemma_kept_positions(before, ids);
    }
    let mut kept: Vec<AllowlistEntry> = Vec::new();
    let mut j: usize = 0;
    while j < places.len()
        invariant
            j <= places@.len(),
            before == entries(list@),
            positions(places@) == kept_positions(before, ids),
            places@.len() == without(before, ids).len(),
            forall|k: int|
                0 <= k < places@.len() ==> 0 <= #[trigger] kept_positions(before, ids)[k]
                    < before.len() && without(before, ids)[k] == before[kept_positions(
                    before,
                    ids,
                )[k]],
            kept@.len() == j,
            forall|k: int| 0 <= k < j ==> #[trigger] kept@[k]@ == without(before, ids)[k],
        decreases places@.len() - j,
    {
        proof {
            assert(positions(places@)[j as int] == places@[j as int] as int);
            assert(0 <= kept_positions(before, ids)[j as int] < before.len());
        }
        let place = places[j];
        assert(list@[place as int]@ == before[place as int]);
        kept.push(list[place].duplicate());
        j = j + 1;
    }
    assert(entries(kept@) =~= without(before, ids));
    Ok(kept)
}

/// Whether no two entries of `list` belong to one identity.
pub open spec fn unique_identities(list: Seq<EntryView>) -> bool {
    forall|i: int, j: int|
        0 <= i < j < list.len() ==> entry_identity(#[trigger] list[i]) != entry_identity(
            #[trigger] list[j],
        )
}

/// Every identity of `list` can be read exactly if none is the first that cannot.
pub proof fn lemma_readable(list: Seq<EntryView>)
    ensures
        first_unreadable(list) is None <==> forall|i: int|
            0 <= i < list.len() ==> entry_identity(#[trigger] list[i]) is Ok,
    decreases list.len(),
{
    if list.len() > 0 {
        let shorter = list.drop_last();
        lemma_readable(shorter);
        if first_unreadable(list) is None {
            assert forall|i: int| 0 <= i < list.len() implies entry_identity(
                #[trigger] list[i],
            ) is Ok by {
                if i < shorter.len() {
                    assert(shorter[i] == list[i]);
                }
            }
        } else {
            if first_unreadable(shorter) is Some {
                let i = choose|i: int|
                    0 <= i < shorter.len() && !(entry_identity(#[trigger] shorter[i]) is Ok);
                assert(list[i] == shorter[i]);
            }
        }
    }
}

/// The entry that stands for a device belongs to the device's identity.
pub proof fn lemma_wire_identity(device: DeviceView)
    requires
        device.device_eui.len() == EUI_LENGTH,
    ensures
        entry_identity(wire_form(device)) == Ok::<Seq<u8>, ParseError>(device.device_eui),
{
    lemma_round_trip(device.device_eui, Some(EUI_SEPARATOR), Some(EUI_SEPARATOR));
}

/// Adding or updating a device is idempotent, and leaves the device's
/// identity with the device's own entry.
///
/// On an allowlist whose identities can all be read: afterwards every
/// identity can still be read; the allowlist holds the device's identity;
/// every entry of that identity is the device's entry; and doing the same
/// again changes nothing.
pub proof fn lemma_upsert_idempotent(list: Seq<EntryView>, device: DeviceView)
    requires
        first_unreadable(list) is None,
        device.device_eui.len() == EUI_LENGTH,
    ensures
        first_unreadable(upserted(list, device)) is None,
        holds(upserted(list, device), device.device_eui),
        forall|i: int|
            0 <= i < upserted(list, device).len() && entry_identity(
                #[trigger] upserted(list, device)[i],
            ) == Ok::<Seq<u8>, ParseError>(device.device_eui) ==> upserted(list, device)[i]
                == wire_form(device),
        upserted(upserted(list, device), device) == upserted(list, device),
{
    let id = device.device_eui;
    let after = upserted(list, device);
    lemma_wire_identity(device);
    lemma_readable(list);
    lemma_readable(after);
    if holds(list, id) {
        let w = choose|w: int|
            0 <= w < list.len() && entry_identity(#[trigger] list[w]) == Ok::<
                Seq<u8>,
                ParseError,
            >(id);
        assert(after[w] == wire_form(device));
    } else {
        assert(after[list.len() as int] == wire_form(device));
    }
    assert(holds(after, id));
    assert(upserted(after, device) =~= after);
}

/// Adding or updating a device keeps the identities of the allowlist apart.
pub proof fn lemma_upsert_keeps_unique(list: Seq<EntryView>, device: DeviceView)
    requires
        first_unreadable(list) is None,
        unique_identities(list),
        device.device_eui.len() == EUI_LENGTH,
    ensures
        unique_identities(upserted(list, device)),
{
    let id = device.device_eui;
    let after = upserted(list, device);
    lemma_wire_identity(device);
    assert forall|i: int, j: int| 0 <= i < j < after.len() implies entry_identity(
        #[trigger] after[i],
    ) != entry_identity(#[trigger] after[j]) by {
        if holds(list, id) {
            assert(entry_identity(after[i]) == entry_identity(list[i]));
            assert(entry_identity(after[j]) == entry_identity(list[j]));
        } else {
            if j < list.len() {
                assert(after[i] == list[i] && after[j] == list[j]);
            } else {
                assert(after[i] == list[i]);
                assert(entry_identity(list[i]) != Ok::<Seq<u8>, ParseError>(id));
            }
        }
    }
}

/// Adding or updating any number of devices keeps the identities of the
/// allowlist apart: no allowlist that comes out of it holds two entries of
/// one identity, unless the allowlist that went in did.
pub proof fn lemma_added_keeps_unique(list: Seq<EntryView>, devices: Seq<DeviceView>)
    requires
        unique_identities(list),
        forall|i: int| 0 <= i < devices.len() ==> (#[trigger] devices[i]).device_eui.len() == EUI_LENGTH,
        added(list, devices) is Ok,
    ensures
        unique_identities(added(list, devices)->Ok_0),
    decreases devices.len(),
{
    if devices.len() > 0 {
        let earlier = devices.drop_last();
        assert forall|i: int| 0 <= i < earlier.len() implies (#[trigger] earlier[i]).device_eui.len()
            == EUI_LENGTH by {
            assert(earlier[i] == devices[i]);
        }
        lemma_added_keeps_unique(list, earlier);
        assert(devices.last() == devices[devices.len() - 1]);
        lemma_upsert_keeps_unique(added(list, earlier)->Ok_0, devices.last());
    }
}

/// On an allowlist whose identities can all be read, adding or updating
/// devices succeeds, and every identity of what comes out can be read.
pub proof fn lemma_added_succeeds(list: Seq<EntryView>, devices: Seq<DeviceView>)
    requires
        first_unreadable(list) is None,
        forall|i: int| 0 <= i < devices.len() ==> (#[trigger] devices[i]).device_eui.len() == EUI_LENGTH,
    ensures
        added(list, devices) is Ok,
        first_unreadable(added(list, devices)->Ok_0) is None,
    decreases devices.len(),
{
    if devices.len() > 0 {
        let earlier = devices.drop_last();
        assert forall|i: int| 0 <= i < earlier.len() implies (#[trigger] earlier[i]).device_eui.len()
            == EUI_LENGTH by {
            assert(earlier[i] == devices[i]);
        }
        lemma_added_succeeds(list, earlier);
        assert(devices.last() == devices[devices.len() - 1]);
        lemma_upsert_idempotent(added(list, earlier)->Ok_0, devices.last());
    }
}

/// Adding the same single device twice in succession gives what adding it
/// once gives.
pub proof fn lemma_add_twice(list: Seq<EntryView>, device: DeviceView)
    requires
        first_unreadable(list) is None,
        device.device_eui.len() == EUI_LENGTH,
    ensures
        added(list, seq![device]) == Ok::<Seq<EntryView>, ParseError>(upserted(list, device)),
        added(upserted(list, device), seq![device]) == added(list, seq![device]),
{
    let one = seq![device];
    assert(one.drop_last() =~= Seq::<DeviceView>::empty());
    assert(one.last() == device);
    assert(added(list, one.drop_last()) == Ok::<Seq<EntryView>, ParseError>(list));
    assert(added(upserted(list, device), one.drop_last()) == Ok::<Seq<EntryView>, ParseError>(
        upserted(list, device),
    ));
    lemma_upsert_idempotent(list, device);
}

/// What stays after a removal: exactly the entries that belong to none of
/// the identities removed.
pub proof fn lemma_without_members(list: Seq<EntryView>, ids: Seq<Seq<u8>>)
    ensures
        forall|entry: EntryView| #[trigger]
            without(list, ids).contains(entry) <==> list.contains(entry) && !entry_listed(
                entry,
                ids,
            ),
    decreases list.len(),
{
    if list.len() > 0 {
        let shorter = list.drop_last();
        let last = list.last();
        lemma_without_members(shorter, ids);
        assert forall|entry: EntryView| #[trigger]
            without(list, ids).contains(entry) <==> list.contains(entry) && !entry_listed(
                entry,
                ids,
            ) by {
            assert(list =~= shorter.push(last));
            if list.contains(entry) {
                let i = choose|i: int| 0 <= i < list.len() && list[i] == entry;
                if i < shorter.len() {
                    assert(shorter[i] == entry);
                }
            }
            if shorter.contains(entry) {
                let i = choose|i: int| 0 <= i < shorter.len() && shorter[i] == entry;
                assert(list[i] == entry);
            }
            assert(list[list.len() - 1] == last);
            let rest = without(shorter, ids);
            if !entry_listed(last, ids) {
                let kept = rest.push(last);
                assert(kept[rest.len() as int] == last);
                if rest.contains(entry) {
                    let i = choose|i: int| 0 <= i < rest.len() && rest[i] == entry;
                    assert(kept[i] == entry);
                }
                if kept.contains(entry) {
                    let i = choose|i: int| 0 <= i < kept.len() && kept[i] == entry;
                    if i < rest.len() {
                        assert(rest[i] == entry);
                    }
                }
            }
        }
    }
}

/// Removal is idempotent: removing the same identities again changes nothing.
pub proof fn lemma_without_idempotent(list: Seq<EntryView>, ids: Seq<Seq<u8>>)
    ensures
        without(without(list, ids), ids) == without(list, ids),
    decreases list.len(),
{
    if list.len() > 0 {
        let shorter = list.drop_last();
        lemma_without_idempotent(shorter, ids);
        if !entry_listed(list.last(), ids) {
            let kept = without(shorter, ids).push(list.last());
            assert(kept.drop_last() =~= without(shorter, ids));
            assert(kept.last() == list.last());
        }
    }
}

/// The entries that stand for `devices`, one for each record in its order.
pub open spec fn wire_forms(devices: Seq<DeviceView>) -> Seq<EntryView> {
    devices.map_values(|device: DeviceView| wire_form(device))
}

/// The allowlist that holds exactly `devices`: what replaces the gateway's
/// allowlist when it is enabled for them. For no device it is empty.
pub fn replacement(devices: &[Device]) -> (list: Vec<AllowlistEntry>)
    ensures
        entries(list@) == wire_forms(records(devices@)),
{
    let mut list: Vec<AllowlistEntry> = Vec::new();
    let mut i: usize = 0;
    while i < devices.len()
        invariant
            i <= devices@.len(),
            list@.len() == i,
            forall|k: int| 0 <= k < i ==> #[trigger] list@[k]@ == wire_form(devices@[k]@),
        decreases devices@.len() - i,
    {
        list.push(devices[i].to_wire());
        i = i + 1;
    }
    assert(entries(list@) =~= wire_forms(records(devices@)));
    list
}

} // verus!

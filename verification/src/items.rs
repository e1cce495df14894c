//! The items of a JSON array up to its first `null`.
//!
//! The gateway's lists are read item by item until an item is `null`, which
//! is also what the `json` crate gives past the end of an array. An item
//! that is read has to name its device.

use crate::json_value::{
    is_null, item, json_item, json_kind, json_len, json_member, json_null, kind, len, member,
    JsonKind,
};
use vstd::prelude::*;

verus! {

/// The number of leading items of `value`, among its first `k`, that are not
/// `null`.
pub open spec fn leading_len(value: json::JsonValue, k: nat) -> nat
    decreases k,
{
    if k == 0 {
        0
    } else {
        let before = leading_len(value, (k - 1) as nat);
        if before == k - 1 && !json_null(json_item(value, k - 1)) {
            k
        } else {
            before
        }
    }
}

/// The number of items of the array `value` before its first `null` item.
pub open spec fn present_len(value: json::JsonValue) -> nat {
    leading_len(value, json_len(value))
}

/// Once an item is `null`, later items do not count.
pub proof fn lemma_leading_len_stops(value: json::JsonValue, k: nat, m: nat)
    requires
        k <= m,
        leading_len(value, k) < k || (k < m && json_null(json_item(value, k as int))),
    ensures
        leading_len(value, m) == leading_len(value, k),
    decreases m,
{
    lemma_leading_len_bound(value, k);
    if k < m {
        if m - 1 > k || leading_len(value, k) < k {
            lemma_leading_len_stops(value, k, (m - 1) as nat);
        }
        lemma_leading_len_bound(value, (m - 1) as nat);
    }
}

/// Not more items count than were looked at.
pub proof fn lemma_leading_len_bound(value: json::JsonValue, k: nat)
    ensures
        leading_len(value, k) <= k,
    decreases k,
{
    if k > 0 {
        lemma_leading_len_bound(value, (k - 1) as nat);
    }
}

/// Where none of the first `k` items is `null`, all of them count.
pub proof fn lemma_leading_len_full(value: json::JsonValue, k: nat)
    requires
        forall|i: int| 0 <= i < k ==> !json_null(#[trigger] json_item(value, i)),
    ensures
        leading_len(value, k) == k,
    decreases k,
{
    if k > 0 {
        lemma_leading_len_full(value, (k - 1) as nat);
    }
}

/// The items that count are not `null`.
pub proof fn lemma_leading_items(value: json::JsonValue, k: nat, i: int)
    requires
        0 <= i < leading_len(value, k),
    ensures
        !json_null(json_item(value, i)),
        i < k,
    decreases k,
{
    if k > 0 {
        if leading_len(value, k) == leading_len(value, (k - 1) as nat) {
            lemma_leading_items(value, (k - 1) as nat, i);
        } else {
            lemma_leading_len_bound(value, (k - 1) as nat);
            if i < k - 1 {
                lemma_leading_items(value, (k - 1) as nat, i);
            }
        }
    }
}

/// An item that is not `null` after `k` leading ones is counted too.
pub proof fn lemma_present_covers(value: json::JsonValue, k: nat, count: nat)
    requires
        k < count,
        leading_len(value, k) == k,
        !json_null(json_item(value, k as int)),
    ensures
        leading_len(value, count) >= k + 1,
    decreases count,
{
    if count > k + 1 {
        lemma_present_covers(value, k, (count - 1) as nat);
    }
}

/// Which items of the JSON array `list` are read: every one of them, or
/// those before the first `null`.
pub open spec fn read_len(list: json::JsonValue, every: bool) -> nat {
    if every {
        json_len(list)
    } else {
        present_len(list)
    }
}

/// Whether each of the first `count` items of `list` names its device: it
/// holds a string under `deveui`.
pub open spec fn names_devices(list: json::JsonValue, count: nat) -> bool {
    forall|i: int|
        0 <= i < count ==> json_kind(json_member(#[trigger] json_item(list, i), "deveui"@)) is Text
}

/// Whether each item of `list` that is read names its device.
pub fn devices_are_named(list: &json::JsonValue, every: bool) -> (named: bool)
    ensures
        named == names_devices(*list, read_len(*list, every)),
{
    let count = len(list);
    let mut index: usize = 0;
    while index < count
        invariant
            index <= count,
            count == json_len(*list),
            !every ==> leading_len(*list, index as nat) == index,
            names_devices(*list, index as nat),
        decreases count - index,
    {
        let current = item(list, index);
        if !every && is_null(current) {
            proof {
                lemma_leading_len_stops(*list, index as nat, count as nat);
            }
            return true;
        }
        match kind(member(current, "deveui")) {
            JsonKind::Text => {},
            _ => {
                proof {
                    if !every {
                        lemma_present_covers(*list, index as nat, count as nat);
                    }
                    assert(!(json_kind(json_member(json_item(*list, index as int), "deveui"@))
                        is Text));
                }
                return false;
            },
        }
        index = index + 1;
    }
    true
}

} // verus!

//! The packets that wait in the gateway's downlink queue.

use crate::answers::{
    document_in, holds_list, is_parse_error, is_unread, list_in, read_document, MtcapError,
};
use crate::devices::{Eui, EUI_LENGTH, EUI_SEPARATOR};
use crate::hex::{format_padded, parse_fixed_hex, ParseError};
use crate::items::{leading_len, lemma_leading_len_stops, lemma_present_covers, present_len};
use crate::json_value::{
    is_null, item, json_item, json_len, json_member, json_text, len, member, text,
};
use vstd::prelude::*;
use vstd::string::*;
use vstd::utf8::*;

verus! {

/// A packet queued for a device.
#[derive(Clone, Debug)]
pub struct Packet {
    data: String,
    device_eui: Eui,
    port: u8,
}

/// What a queued packet holds.
pub ghost struct PacketView {
    pub data: Seq<char>,
    pub device_eui: Seq<u8>,
    pub port: u8,
}

impl View for Packet {
    type V = PacketView;

    closed spec fn view(&self) -> PacketView {
        PacketView { data: self.data@, device_eui: self.device_eui@, port: self.port }
    }
}

impl Packet {
    /// The packet with the payload `data` for the device `device_eui` on `port`.
    pub fn new(data: String, device_eui: Eui, port: u8) -> (packet: Packet)
        ensures
            packet@ == (PacketView { data: data@, device_eui: device_eui@, port }),
    {
        Packet { data, device_eui, port }
    }

    /// The device that the packet is queued for.
    pub fn device_eui(&self) -> (eui: &Eui)
        ensures
            eui@ == self@.device_eui,
    {
        &self.device_eui
    }

    /// The port that the packet is sent to.
    pub fn port(&self) -> (port: u8)
        ensures
            port == self@.port,
    {
        self.port
    }

    /// The payload of the packet, as the gateway spells it.
    pub fn data(&self) -> (data: &str)
        ensures
            data@ == self@.data,
    {
        self.data.as_str()
    }
}

/// The prefix of the path of a device's queue.
pub open spec fn queue_path_prefix() -> Seq<char> {
    "lora/packets/queue/"@
}

/// The path of the queue of the device `device_eui`.
pub fn queue_path(device_eui: &Eui) -> (path: String)
    ensures
        path@ == queue_path_prefix() + format_padded(device_eui@, EUI_SEPARATOR),
{
    let name = device_eui.to_string();
    "lora/packets/queue/".to_owned().concat(name.as_str())
}

/// Whether `c` is one of the digits `0` to `9`.
pub open spec fn is_decimal_digit(c: char) -> bool {
    0x30 <= c as int <= 0x39
}

/// Whether every character of `digits` is a decimal digit.
pub open spec fn all_decimal(digits: Seq<char>) -> bool {
    forall|i: int| 0 <= i < digits.len() ==> is_decimal_digit(#[trigger] digits[i])
}

/// The number that `digits` spell in decimal.
pub open spec fn decimal_value(digits: Seq<char>) -> nat
    decreases digits.len(),
{
    if digits.len() == 0 {
        0
    } else {
        decimal_value(digits.drop_last()) * 10 + (digits.last() as int - 0x30) as nat
    }
}

/// Where the digits of `text` begin: after one `+`, if it starts with one.
pub open spec fn digits_start(text: Seq<char>) -> int {
    if text.len() > 0 && text[0] == '+' {
        1
    } else {
        0
    }
}

/// The port number that `text` spells: an optional `+`, then one or more
/// decimal digits, whose number is below 256.
pub open spec fn decimal_u8(text: Seq<char>) -> Option<u8> {
    let digits = text.subrange(digits_start(text), text.len() as int);
    if digits.len() > 0 && all_decimal(digits) && decimal_value(digits) <= 255 {
        Some(decimal_value(digits) as u8)
    } else {
        None
    }
}

/// More digits do not spell a smaller number.
proof fn lemma_decimal_value_grows(digits: Seq<char>, k: int)
    requires
        0 <= k <= digits.len(),
        all_decimal(digits),
    ensures
        decimal_value(digits.take(k)) <= decimal_value(digits),
    decreases digits.len(),
{
    if k < digits.len() {
        let shorter = digits.drop_last();
        assert forall|i: int| 0 <= i < shorter.len() implies is_decimal_digit(
            #[trigger] shorter[i],
        ) by {
            assert(shorter[i] == digits[i]);
        }
        assert(shorter.take(k) =~= digits.take(k));
        lemma_decimal_value_grows(shorter, k);
        assert(is_decimal_digit(digits[digits.len() - 1]));
        assert(decimal_value(digits) >= decimal_value(shorter)) by (nonlinear_arith)
            requires
                decimal_value(digits) == decimal_value(shorter) * 10 + (digits.last() as int
                    - 0x30) as nat,
        ;
    } else {
        assert(digits.take(k) =~= digits);
    }
}

/// Reads a port number: an optional `+`, then one or more decimal digits,
/// whose number is below 256.
pub fn read_port(text: &str) -> (r: Option<u8>)
    ensures
        r == decimal_u8(text@),
{
    if !text.is_ascii() {
        proof {
            let digits = text@.subrange(digits_start(text@), text@.len() as int);
            if digits.len() > 0 && all_decimal(digits) {
                assert forall|i: int| 0 <= i < text@.len() implies '\0' <= #[trigger] text@[i]
                    <= '\u{7f}' by {
                    if i >= digits_start(text@) {
                        assert(is_decimal_digit(digits[i - digits_start(text@)]));
                    }
                }
            }
        }
        return None;
    }
    proof {
        is_ascii_chars_encode_utf8(text@);
        is_ascii_chars_nat_bound(text@);
    }
    let len: usize = text.as_bytes().len();
    let start: usize = if len > 0 && text.get_ascii(0) == 0x2b {
        1
    } else {
        0
    };
    assert(start == digits_start(text@)) by {
        if len > 0 {
            assert((text@[0] as nat) < 128);
        }
    }
    if start == len {
        return None;
    }
    let ghost digits = text@.subrange(start as int, len as int);
    let mut value: u16 = 0;
    let mut i: usize = start;
    assert(digits.take(0) =~= Seq::<char>::empty());
    while i < len
        invariant
            start <= i <= len,
            is_ascii(text),
            text@.len() == len,
            digits == text@.subrange(start as int, len as int),
            start == digits_start(text@),
            start < len,
            all_decimal(digits.take(i - start)),
            value == decimal_value(digits.take(i - start)),
            value <= 255,
        decreases len - i,
    {
        let byte = text.get_ascii(i);
        proof {
            is_ascii_chars_nat_bound(text@);
            assert((text@[i as int] as nat) < 128);
            assert(byte as char == text@[i as int]);
            assert(digits[i - start] == text@[i as int]);
            assert(digits.take(i - start + 1).drop_last() =~= digits.take(i - start));
            assert(digits.take(i - start + 1).last() == digits[i - start]);
        }
        if byte < 0x30 || byte > 0x39 {
            assert(!is_decimal_digit(digits[i - start]));
            return None;
        }
        let next: u16 = value * 10 + (byte - 0x30) as u16;
        proof {
            assert forall|k: int| 0 <= k < i - start + 1 implies is_decimal_digit(
                #[trigger] digits.take(i - start + 1)[k],
            ) by {
                if k < i - start {
                    assert(digits.take(i - start)[k] == digits[k]);
                }
            }
            assert(next == decimal_value(digits.take(i - start + 1)));
        }
        if next > 255 {
            proof {
                if all_decimal(digits) {
                    lemma_decimal_value_grows(digits, i - start + 1);
                }
            }
            return None;
        }
        value = next;
        i = i + 1;
    }
    assert(digits.take(i - start) =~= digits);
    Some(value as u8)
}

/// Why a queued packet could not be read.
pub ghost enum PacketFault {
    /// Its device identity cannot be read.
    Identity(ParseError),
    /// Its port, which is this text, is no number below 256.
    Port(Seq<char>),
}

/// The queued packet that the JSON object `value` spells.
pub open spec fn packet_of(value: json::JsonValue) -> Result<PacketView, PacketFault> {
    match parse_fixed_hex(
        json_text(json_member(value, "deveui"@)),
        EUI_LENGTH as int,
        Some(EUI_SEPARATOR),
    ) {
        Err(e) => Err(PacketFault::Identity(e)),
        Ok(device_eui) => match decimal_u8(json_text(json_member(value, "port"@))) {
            None => Err(PacketFault::Port(json_text(json_member(value, "port"@)))),
            Some(port) => Ok(
                PacketView { data: json_text(json_member(value, "data"@)), device_eui, port },
            ),
        },
    }
}

/// The packets that the first `count` items of the JSON array `value` spell,
/// or the fault of the first item that spells none.
pub open spec fn packets_in(value: json::JsonValue, count: nat) -> Result<
    Seq<PacketView>,
    PacketFault,
>
    decreases count,
{
    if count == 0 {
        Ok(Seq::empty())
    } else {
        match packets_in(value, (count - 1) as nat) {
            Err(fault) => Err(fault),
            Ok(list) => match packet_of(json_item(value, count - 1)) {
                Err(fault) => Err(fault),
                Ok(packet) => Ok(list.push(packet)),
            },
        }
    }
}

/// A fault among the first `k` items is the fault of the whole.
proof fn lemma_packets_prefix(value: json::JsonValue, k: nat, count: nat)
    requires
        k <= count,
        packets_in(value, k) is Err,
    ensures
        packets_in(value, count) == packets_in(value, k),
    decreases count,
{
    if k < count {
        lemma_packets_prefix(value, k, (count - 1) as nat);
    }
}

/// Whether `error` reports the fault `fault`.
pub open spec fn is_packet_fault(error: MtcapError, fault: PacketFault) -> bool {
    match fault {
        PacketFault::Identity(e) => is_parse_error(error, e),
        PacketFault::Port(port) => error matches MtcapError::Other(m) && m@ == port,
    }
}

/// The packets as what they hold.
pub open spec fn packet_views(list: Seq<Packet>) -> Seq<PacketView> {
    list.map_values(|packet: Packet| packet@)
}

/// Reads one queued packet from a JSON object.
pub fn packet_from_json(value: &json::JsonValue) -> (r: Result<Packet, MtcapError>)
    ensures
        match packet_of(*value) {
            Ok(packet) => r is Ok && r->Ok_0@ == packet,
            Err(fault) => r is Err && is_packet_fault(r->Err_0, fault),
        },
{
    let data = text(member(value, "data"));
    let device_eui = match Eui::from_str(text(member(value, "deveui")).as_str()) {
        Ok(eui) => eui,
        Err(e) => {
            return Err(MtcapError::Parse(e));
        },
    };
    let port_text = text(member(value, "port"));
    match read_port(port_text.as_str()) {
        Some(port) => Ok(Packet::new(data, device_eui, port)),
        None => Err(MtcapError::Other(port_text)),
    }
}

/// The packets in the queue that the gateway reported, up to the first
/// `null` item of its list.
pub fn queued_packets(response: &str) -> (r: Result<Vec<Packet>, MtcapError>)
    ensures
        match document_in(response@) {
            None => r is Err && is_unread(response@, r->Err_0),
            Some(document) => if !holds_list(document, false) {
                r is Err && r->Err_0 is Protocol
            } else {
                match packets_in(
                    json_member(document, "result"@),
                    present_len(json_member(document, "result"@)),
                ) {
                    Ok(list) => r is Ok && packet_views(r->Ok_0@) == list,
                    Err(fault) => r is Err && is_packet_fault(r->Err_0, fault),
                }
            },
        },
{
    let document = match read_document(response) {
        Ok(document) => document,
        Err(e) => {
            return Err(e);
        },
    };
    let queue = match list_in(&document, false) {
        Ok(queue) => queue,
        Err(e) => {
            return Err(e);
        },
    };
    let count = len(queue);
    let mut list: Vec<Packet> = Vec::new();
    let mut index: usize = 0;
    assert(packet_views(list@) =~= Seq::<PacketView>::empty());
    while index < count
        invariant
            index <= count,
            count == json_len(*queue),
            *queue == json_member(document, "result"@),
            document_in(response@) == Some(document),
            holds_list(document, false),
            leading_len(*queue, index as nat) == index,
            packets_in(*queue, index as nat) == Ok::<Seq<PacketView>, PacketFault>(
                packet_views(list@),
            ),
        decreases count - index,
    {
        let current = item(queue, index);
        if is_null(current) {
            proof {
                lemma_leading_len_stops(*queue, index as nat, count as nat);
            }
            return Ok(list);
        }
        match packet_from_json(current) {
            Ok(packet) => {
                let ghost sofar = packet_views(list@);
                list.push(packet);
                assert(packet_views(list@) =~= sofar.push(packet@));
            },
            Err(e) => {
                proof {
                    assert(packets_in(*queue, (index + 1) as nat) is Err);
                    lemma_present_covers(*queue, index as nat, count as nat);
                    lemma_packets_prefix(*queue, (index + 1) as nat, present_len(*queue));
                }
                return Err(e);
            },
        }
        index = index + 1;
    }
    Ok(list)
}

} // verus!

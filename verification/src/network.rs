//! The mode in which the gateway's LoRa network runs.

use crate::answers::{document_in, is_unread, read_document, MtcapError};
use crate::json_value::{
    dump, flag_value, json_dump, json_kind, json_member, json_text, kind, set_member, JsonKind,
};
use vstd::prelude::*;
use vstd::string::*;

verus! {

/// What the gateway does with the packets it receives.
#[derive(Clone, Copy, Debug, PartialEq, Eq, Structural)]
pub enum Mode {
    /// The gateway runs its own network server.
    NetworkServer,
    /// The gateway forwards packets to a network server elsewhere.
    PacketForwarder,
    /// The LoRa network is switched off.
    Disabled,
}

impl Mode {
    /// Whether the LoRa network is enabled in this mode.
    pub open spec fn enabled(self) -> bool {
        !(self is Disabled)
    }

    /// Whether packets are forwarded in this mode.
    pub open spec fn packet_forwarder(self) -> bool {
        self is PacketForwarder
    }

    /// Whether the LoRa network is enabled in this mode.
    pub fn is_enabled(&self) -> (on: bool)
        ensures
            on == self.enabled(),
    {
        match self {
            Mode::NetworkServer => true,
            Mode::PacketForwarder => true,
            Mode::Disabled => false,
        }
    }

    /// Whether packets are forwarded in this mode.
    pub fn is_packet_forwarder(&self) -> (on: bool)
        ensures
            on == self.packet_forwarder(),
    {
        match self {
            Mode::NetworkServer => false,
            Mode::PacketForwarder => true,
            Mode::Disabled => false,
        }
    }
}

/// The text that a boolean displays as.
pub open spec fn flag_text(flag: bool) -> Seq<char> {
    if flag {
        "true"@
    } else {
        "false"@
    }
}

/// Whether `value` is the boolean `flag`.
pub open spec fn is_flag(value: json::JsonValue, flag: bool) -> bool {
    json_kind(value) is Boolean && json_text(value) == flag_text(flag)
}

/// Whether `body` is the JSON text of the settings `document` with the two
/// flags of `mode` set, as booleans, and everything else as it was.
pub open spec fn is_mode_body(body: Seq<char>, document: json::JsonValue, mode: Mode) -> bool {
    exists|value: json::JsonValue|
        {
            &&& #[trigger] json_dump(value) == body
            &&& is_flag(json_member(value, "enabled"@), mode.enabled())
            &&& is_flag(json_member(value, "packetForwarderMode"@), mode.packet_forwarder())
            &&& forall|key: Seq<char>|
                key != "enabled"@ && key != "packetForwarderMode"@ ==> #[trigger] json_member(
                    value,
                    key,
                ) == json_member(document, key)
        }
}

/// The request body that sets the LoRa network to `mode`: the settings that
/// the gateway reported in `response`, with the two flags of the mode set.
/// An answer that is no object is of the wrong shape.
pub fn mode_request(response: &str, mode: Mode) -> (r: Result<String, MtcapError>)
    ensures
        match document_in(response@) {
            None => r is Err && is_unread(response@, r->Err_0),
            Some(document) => if json_kind(document) is Object {
                r is Ok && is_mode_body(r->Ok_0@, document, mode)
            } else {
                r is Err && r->Err_0 is Protocol
            },
        },
{
    let mut settings = match read_document(response) {
        Ok(document) => document,
        Err(e) => {
            return Err(e);
        },
    };
    match kind(&settings) {
        JsonKind::Object => {},
        _ => {
            return Err(MtcapError::Protocol);
        },
    }
    proof {
        reveal_strlit("enabled");
        reveal_strlit("packetForwarderMode");
        assert("enabled"@.len() != "packetForwarderMode"@.len());
    }
    set_member(&mut settings, "enabled", flag_value(mode.is_enabled()));
    set_member(&mut settings, "packetForwarderMode", flag_value(mode.is_packet_forwarder()));
    let ghost written = settings;
    let body = dump(settings);
    assert(json_dump(written) == body@);
    Ok(body)
}

} // verus!

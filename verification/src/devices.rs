//! The device record: identities, key and classification tags, and the form in
//! which the gateway's allowlist holds a device.

use crate::hex::{
    encode_hex, format_padded, format_unpadded, lemma_round_trip, parse_fixed_hex, ParseError,
};
use vstd::prelude::*;
use vstd::string::*;

pub use crate::hex::{string_to_vec_u8, string_unpadded_to_vec_u8};

verus! {

/// Bytes in a device or join identity.
pub const EUI_LENGTH: usize = 8;

/// Bytes in a device key.
pub const KEY_LENGTH: usize = 16;

/// The separator of an identity's text form.
pub const EUI_SEPARATOR: char = '-';

/// The separator of a key's display form.
pub const KEY_SEPARATOR: char = ' ';

/// An 8-byte identity of an end device or of a join service.
#[derive(Clone, Copy, Debug, PartialEq, Eq)]
pub struct Eui {
    digits: [u8; EUI_LENGTH],
}

impl View for Eui {
    type V = Seq<u8>;

    closed spec fn view(&self) -> Seq<u8> {
        self.digits@
    }
}

/// Copies the first eight bytes of `bytes`.
fn eui_digits(bytes: &Vec<u8>) -> (digits: [u8; EUI_LENGTH])
    requires
        bytes@.len() == EUI_LENGTH,
    ensures
        digits@ == bytes@,
{
    let mut digits = [0u8;EUI_LENGTH];
    let mut i: usize = 0;
    while i < EUI_LENGTH
        invariant
            i <= EUI_LENGTH,
            bytes@.len() == EUI_LENGTH,
            forall|k: int| 0 <= k < i ==> digits@[k] == bytes@[k],
        decreases EUI_LENGTH - i,
    {
        digits[i] = bytes[i];
        i = i + 1;
    }
    assert(digits@ =~= bytes@);
    digits
}

/// Copies the first sixteen bytes of `bytes`.
fn key_digits(bytes: &Vec<u8>) -> (digits: [u8; KEY_LENGTH])
    requires
        bytes@.len() == KEY_LENGTH,
    ensures
        digits@ == bytes@,
{
    let mut digits = [0u8;KEY_LENGTH];
    let mut i: usize = 0;
    while i < KEY_LENGTH
        invariant
            i <= KEY_LENGTH,
            bytes@.len() == KEY_LENGTH,
            forall|k: int| 0 <= k < i ==> digits@[k] == bytes@[k],
        decreases KEY_LENGTH - i,
    {
        digits[i] = bytes[i];
        i = i + 1;
    }
    assert(digits@ =~= bytes@);
    digits
}

impl Eui {
    /// The identity with the bytes `eui`.
    pub fn new(eui: [u8; EUI_LENGTH]) -> (r: Self)
        ensures
            r@ == eui@,
    {
        Self { digits: eui }
    }

    /// An identity is eight bytes long.
    pub proof fn lemma_len(self)
        ensures
            self@.len() == EUI_LENGTH,
    {
    }

    /// The bytes of the identity.
    pub fn digits(&self) -> (r: [u8; EUI_LENGTH])
        ensures
            r@ == self@,
    {
        self.digits
    }

    /// Reads an identity from sixteen hexadecimal digits, contiguous or in
    /// two-digit groups joined by `-`.
    pub fn from_str(input: &str) -> (r: Result<Eui, ParseError>)
        ensures
            match parse_fixed_hex(input@, EUI_LENGTH as int, Some(EUI_SEPARATOR)) {
                Ok(bytes) => r is Ok && r->Ok_0@ == bytes,
                Err(e) => r is Err && r->Err_0 == e,
            },
    {
        match string_to_vec_u8(input, EUI_LENGTH, Some(EUI_SEPARATOR)) {
            Ok(bytes) => Ok(Eui { digits: eui_digits(&bytes) }),
            Err(e) => Err(e),
        }
    }

    /// The canonical text of the identity: eight lowercase two-digit groups
    /// joined by `-`.
    pub fn to_string(&self) -> (text: String)
        ensures
            text@ == format_padded(self@, EUI_SEPARATOR),
    {
        encode_hex(self.digits.as_slice(), Some(EUI_SEPARATOR))
    }

    /// Whether two identities hold the same bytes.
    pub fn equals(&self, other: &Eui) -> (same: bool)
        ensures
            same == (self@ == other@),
    {
        let mut i: usize = 0;
        while i < EUI_LENGTH
            invariant
                i <= EUI_LENGTH,
                forall|k: int| 0 <= k < i ==> self.digits@[k] == other.digits@[k],
            decreases EUI_LENGTH - i,
        {
            if self.digits[i] != other.digits[i] {
                return false;
            }
            i = i + 1;
        }
        assert(self.digits@ =~= other.digits@);
        true
    }
}

/// A 16-byte symmetric root key.
#[derive(Clone, Copy, Debug, PartialEq, Eq)]
pub struct Key {
    digits: [u8; KEY_LENGTH],
}

impl View for Key {
    type V = Seq<u8>;

    closed spec fn view(&self) -> Seq<u8> {
        self.digits@
    }
}

impl Key {
    /// The key with the bytes `key`.
    pub fn new(key: [u8; KEY_LENGTH]) -> (r: Self)
        ensures
            r@ == key@,
    {
        Self { digits: key }
    }

    /// A key is sixteen bytes long.
    pub proof fn lemma_len(self)
        ensures
            self@.len() == KEY_LENGTH,
    {
    }

    /// The bytes of the key.
    pub fn digits(&self) -> (r: [u8; KEY_LENGTH])
        ensures
            r@ == self@,
    {
        self.digits
    }

    /// Reads a key from thirty-two hexadecimal digits, contiguous or in
    /// two-digit groups joined by one separator character of any kind.
    pub fn from_str(input: &str) -> (r: Result<Key, ParseError>)
        ensures
            match parse_fixed_hex(input@, KEY_LENGTH as int, None) {
                Ok(bytes) => r is Ok && r->Ok_0@ == bytes,
                Err(e) => r is Err && r->Err_0 == e,
            },
    {
        match string_to_vec_u8(input, KEY_LENGTH, None) {
            Ok(bytes) => Ok(Key { digits: key_digits(&bytes) }),
            Err(e) => Err(e),
        }
    }

    /// The display form of the key: sixteen lowercase two-digit groups joined
    /// by a space.
    pub fn to_string(&self) -> (text: String)
        ensures
            text@ == format_padded(self@, KEY_SEPARATOR),
    {
        encode_hex(self.digits.as_slice(), Some(KEY_SEPARATOR))
    }

    /// The wire form of the key: thirty-two contiguous lowercase digits.
    pub fn to_string_no_spaces(&self) -> (text: String)
        ensures
            text@ == format_unpadded(self@),
    {
        encode_hex(self.digits.as_slice(), None)
    }
}

/// The LoRaWAN class of a device, also used as the tag of its network profile.
#[derive(Clone, Copy, Debug, PartialEq, Eq, Structural)]
pub enum Class {
    A,
    B,
    C,
}

impl Class {
    /// The name of the class on the wire.
    pub open spec fn name(self) -> Seq<char> {
        match self {
            Class::A => "A"@,
            Class::B => "B"@,
            Class::C => "C"@,
        }
    }

    /// The name of the class on the wire.
    pub fn as_str(&self) -> (text: &'static str)
        ensures
            text@ == self.name(),
    {
        match self {
            Class::A => "A",
            Class::B => "B",
            Class::C => "C",
        }
    }

    /// The name of the class on the wire, as an owned string.
    pub fn to_string(&self) -> (text: String)
        ensures
            text@ == self.name(),
    {
        self.as_str().to_owned()
    }
}

/// The radio region that a device is set up for.
#[derive(Clone, Copy, Debug, PartialEq, Eq, Structural)]
pub enum DeviceProfile {
    As923,
    Au915,
    Eu868,
    In865,
    Kr920,
    Us915,
}

impl DeviceProfile {
    /// The code of the region on the wire.
    pub open spec fn code(self) -> Seq<char> {
        match self {
            DeviceProfile::As923 => "AS923"@,
            DeviceProfile::Au915 => "AU915"@,
            DeviceProfile::Eu868 => "EU868"@,
            DeviceProfile::In865 => "IN865"@,
            DeviceProfile::Kr920 => "KR920"@,
            DeviceProfile::Us915 => "US915"@,
        }
    }

    /// The code of the region on the wire.
    pub fn as_str(&self) -> (text: &'static str)
        ensures
            text@ == self.code(),
    {
        match self {
            DeviceProfile::As923 => "AS923",
            DeviceProfile::Au915 => "AU915",
            DeviceProfile::Eu868 => "EU868",
            DeviceProfile::In865 => "IN865",
            DeviceProfile::Kr920 => "KR920",
            DeviceProfile::Us915 => "US915",
        }
    }

    /// The code of the region on the wire, as an owned string.
    pub fn to_string(&self) -> (text: String)
        ensures
            text@ == self.code(),
    {
        self.as_str().to_owned()
    }
}

/// What the gateway's allowlist holds of one device: six texts.
#[derive(Clone, Debug, PartialEq, Eq)]
pub struct AllowlistEntry {
    pub deveui: String,
    pub appeui: String,
    pub appkey: String,
    pub class: String,
    pub device_profile_id: String,
    pub network_profile_id: String,
}

/// The six texts of an allowlist entry.
pub ghost struct EntryView {
    pub deveui: Seq<char>,
    pub appeui: Seq<char>,
    pub appkey: Seq<char>,
    pub class: Seq<char>,
    pub device_profile_id: Seq<char>,
    pub network_profile_id: Seq<char>,
}

impl View for AllowlistEntry {
    type V = EntryView;

    open spec fn view(&self) -> EntryView {
        EntryView {
            deveui: self.deveui@,
            appeui: self.appeui@,
            appkey: self.appkey@,
            class: self.class@,
            device_profile_id: self.device_profile_id@,
            network_profile_id: self.network_profile_id@,
        }
    }
}

impl AllowlistEntry {
    /// A copy of the entry.
    pub fn duplicate(&self) -> (copy: AllowlistEntry)
        ensures
            copy@ == self@,
    {
        AllowlistEntry {
            deveui: self.deveui.clone(),
            appeui: self.appeui.clone(),
            appkey: self.appkey.clone(),
            class: self.class.clone(),
            device_profile_id: self.device_profile_id.clone(),
            network_profile_id: self.network_profile_id.clone(),
        }
    }
}

/// A device as the operator declares it.
pub struct Device {
    device_eui: Eui,
    join_eui: Eui,
    application_key: Key,
    class: Class,
    device_profile: DeviceProfile,
    network_profile: Class,
}

/// What a device record holds.
pub ghost struct DeviceView {
    pub device_eui: Seq<u8>,
    pub join_eui: Seq<u8>,
    pub application_key: Seq<u8>,
    pub class: Class,
    pub device_profile: DeviceProfile,
    pub network_profile: Class,
}

impl View for Device {
    type V = DeviceView;

    closed spec fn view(&self) -> DeviceView {
        DeviceView {
            device_eui: self.device_eui@,
            join_eui: self.join_eui@,
            application_key: self.application_key@,
            class: self.class,
            device_profile: self.device_profile,
            network_profile: self.network_profile,
        }
    }
}

/// The prefix of a device profile's name on the wire.
pub open spec fn device_profile_prefix() -> Seq<char> {
    "LW102-OTA-"@
}

/// The prefix of a network profile's name on the wire.
pub open spec fn network_profile_prefix() -> Seq<char> {
    "DEFAULT-CLASS-"@
}

/// The allowlist entry that stands for a device record.
pub open spec fn wire_form(device: DeviceView) -> EntryView {
    EntryView {
        deveui: format_padded(device.device_eui, EUI_SEPARATOR),
        appeui: format_padded(device.join_eui, EUI_SEPARATOR),
        appkey: format_unpadded(device.application_key),
        class: device.class.name(),
        device_profile_id: device_profile_prefix() + device.device_profile.code(),
        network_profile_id: network_profile_prefix() + device.network_profile.name(),
    }
}

impl Device {
    /// The record of the given identity, join identity, key and tags.
    pub fn new(
        device_eui: Eui,
        join_eui: Eui,
        application_key: Key,
        class: Class,
        device_profile: DeviceProfile,
        network_profile: Class,
    ) -> (r: Self)
        ensures
            r@ == (DeviceView {
                device_eui: device_eui@,
                join_eui: join_eui@,
                application_key: application_key@,
                class,
                device_profile,
                network_profile,
            }),
    {
        Self { device_eui, join_eui, application_key, class, device_profile, network_profile }
    }

    /// The identity of the device.
    pub fn device_eui(&self) -> (r: &Eui)
        ensures
            r@ == self@.device_eui,
    {
        &self.device_eui
    }

    /// A device record holds identities of eight bytes and a key of sixteen.
    pub proof fn lemma_lengths(self)
        ensures
            self@.device_eui.len() == EUI_LENGTH,
            self@.join_eui.len() == EUI_LENGTH,
            self@.application_key.len() == KEY_LENGTH,
    {
    }

    /// The allowlist entry that stands for this device.
    pub fn to_wire(&self) -> (entry: AllowlistEntry)
        ensures
            entry@ == wire_form(self@),
    {
        AllowlistEntry {
            deveui: self.device_eui.to_string(),
            appeui: self.join_eui.to_string(),
            appkey: self.application_key.to_string_no_spaces(),
            class: self.class.to_string(),
            device_profile_id: "LW102-OTA-".to_owned().concat(self.device_profile.as_str()),
            network_profile_id: "DEFAULT-CLASS-".to_owned().concat(self.network_profile.as_str()),
        }
    }
}

/// Round trip of identities: the text that `Eui::to_string` writes is read
/// back by `Eui::from_str` as the same bytes.
pub proof fn lemma_eui_round_trip(eui: Eui)
    ensures
        parse_fixed_hex(format_padded(eui@, EUI_SEPARATOR), EUI_LENGTH as int, Some(EUI_SEPARATOR))
            == Ok::<Seq<u8>, ParseError>(eui@),
{
    eui.lemma_len();
    lemma_round_trip(eui@, Some(EUI_SEPARATOR), Some(EUI_SEPARATOR));
}

/// Round trip of keys: the display form and the wire form of a key are both
/// read back by `Key::from_str` as the same bytes.
pub proof fn lemma_key_round_trip(key: Key)
    ensures
        parse_fixed_hex(format_padded(key@, KEY_SEPARATOR), KEY_LENGTH as int, None) == Ok::<
            Seq<u8>,
            ParseError,
        >(key@),
        parse_fixed_hex(format_unpadded(key@), KEY_LENGTH as int, None) == Ok::<
            Seq<u8>,
            ParseError,
        >(key@),
{
    key.lemma_len();
    lemma_round_trip(key@, Some(KEY_SEPARATOR), None);
    lemma_round_trip(key@, None, None);
}

} // verus!

//! Configuration of a LoRaWAN gateway's end-device allowlist: the codec for
//! device identities and keys, the device record with its wire form, and the
//! rules by which a desired set of devices is reconciled with the gateway's
//! remote state.

pub mod allowlist;
pub mod answers;
pub mod devices;
pub mod hex;
pub mod items;
pub mod json_value;
pub mod network;
pub mod queue;
pub mod sessions;
pub mod timestamp;
pub mod wire;

pub use devices::{Class, Device, DeviceProfile, Eui, Key};

//! What the device keeps in its storage: Wi-Fi credentials, settings and the saved scale.
use crate::binary32;
use crate::binary32::Binary32;
use crate::convert;
use crate::decimal;
use crate::scale_ble::types::{SavedScale, SavedScaleView};
use crate::text;
use vstd::prelude::*;
use vstd::string::*;
use vstd::utf8::*;

verus! {

pub const NVS_NAMESPACE: &'static str = "wifi";

pub const NVS_SSID_KEY: &'static str = "ssid";

pub const NVS_PASS_KEY: &'static str = "pass";

pub const SETTINGS_NAMESPACE: &'static str = "settings";

pub const SETTINGS_LABEL_KEY: &'static str = "label";

pub const SETTINGS_TEMP_OFFSET_KEY: &'static str = "temp_offset_c";

pub const SCALE_NAMESPACE: &'static str = "scale";

pub const SCALE_ADDR_KEY: &'static str = "addr";

pub const SCALE_NAME_KEY: &'static str = "name";

pub const SCALE_ADDR_TYPE_KEY: &'static str = "addr_type";

/// The longest network name, in bytes.
pub const MAX_SSID_LEN: usize = 32;

/// The longest password, in bytes.
pub const MAX_PASS_LEN: usize = 64;

/// The longest device label, in bytes.
pub const MAX_LABEL_LEN: usize = 32;

/// The longest name of a saved scale, in bytes.
pub const MAX_SCALE_NAME_LEN: usize = 48;

/// The longest address of a saved scale, in bytes.
pub const MAX_SCALE_ADDR_LEN: usize = 17;

/// The longest address type of a saved scale, in bytes.
pub const MAX_SCALE_ADDR_TYPE_LEN: usize = 16;

/// The settings of the device.
#[derive(Debug)]
pub struct DeviceSettings {
    pub ssid: String,
    pub device_label: String,
    pub temperature_offset_c: Binary32,
}

/// What the settings hold.
pub struct SettingsView {
    pub ssid: Seq<char>,
    pub device_label: Seq<char>,
    pub temperature_offset_c: Binary32,
}

impl View for DeviceSettings {
    type V = SettingsView;

    open spec fn view(&self) -> SettingsView {
        SettingsView {
            ssid: self.ssid@,
            device_label: self.device_label@,
            temperature_offset_c: self.temperature_offset_c,
        }
    }
}

impl Clone for DeviceSettings {
    fn clone(&self) -> (r: Self)
        ensures
            r@ == self@,
    {
        DeviceSettings {
            ssid: self.ssid.clone(),
            device_label: self.device_label.clone(),
            temperature_offset_c: self.temperature_offset_c,
        }
    }
}

/// A stored text, or nothing.
pub open spec fn text_view(t: Option<String>) -> Option<Seq<char>> {
    match t {
        Some(s) => Some(s@),
        None => None,
    }
}

/// A stored text, or another where nothing is stored.
pub open spec fn text_or(t: Option<Seq<char>>, other: Seq<char>) -> Seq<char> {
    match t {
        Some(s) => s,
        None => other,
    }
}

/// A stored text, or another where nothing is stored.
pub fn stored_or(t: Option<String>, other: &str) -> (r: String)
    ensures
        r@ == text_or(text_view(t), other@),
{
    match t {
        Some(s) => s,
        None => other.to_owned(),
    }
}

/// How many bytes a text takes.
pub open spec fn byte_length(s: Seq<char>) -> nat {
    encode_utf8(s).len()
}

/// Whether a text takes more than `limit` bytes.
pub fn is_longer_than(s: &str, limit: usize) -> (r: bool)
    ensures
        r == (byte_length(s@) > limit),
{
    s.as_bytes().len() > limit
}

/// The temperature offset that is stored: 0 where none is stored or it is no number.
pub open spec fn stored_offset(t: Option<Seq<char>>) -> Binary32 {
    match t {
        Some(s) => match decimal::number(s) {
            Some(x) => x,
            None => binary32::zero(),
        },
        None => binary32::zero(),
    }
}

/// The settings that are stored.
pub open spec fn stored_settings(
    ssid: Option<Seq<char>>,
    label: Option<Seq<char>>,
    offset: Option<Seq<char>>,
) -> SettingsView {
    SettingsView {
        ssid: text_or(ssid, Seq::empty()),
        device_label: text_or(label, "OpenBarista"@),
        temperature_offset_c: stored_offset(offset),
    }
}

/// The settings, out of what is stored.
pub fn read_device_settings(ssid: Option<String>, label: Option<String>, offset: Option<String>) -> (r:
    DeviceSettings)
    ensures
        r@ == stored_settings(text_view(ssid), text_view(label), text_view(offset)),
{
    let temperature_offset_c = match offset {
        Some(s) => match decimal::read_number(s.as_str()) {
            Some(x) => x,
            None => Binary32::from_bits(0),
        },
        None => Binary32::from_bits(0),
    };
    let ssid = match ssid {
        Some(s) => s,
        None => String::new(),
    };
    DeviceSettings { ssid, device_label: stored_or(label, "OpenBarista"), temperature_offset_c }
}

/// How a temperature offset is stored.
pub fn save_temperature_offset(temperature_offset_c: Binary32) -> (r: String)
    ensures
        r@ == convert::fixed3(temperature_offset_c),
{
    convert::fixed3_text(temperature_offset_c)
}

/// The saved scale, out of what is stored. There is one where an address is stored that is not
/// blank.
pub open spec fn stored_scale(
    address: Option<Seq<char>>,
    name: Option<Seq<char>>,
    addr_type: Option<Seq<char>>,
) -> Option<SavedScaleView> {
    let at = text::trimmed(text_or(address, Seq::empty()));
    if at.len() == 0 {
        None
    } else {
        Some(
            SavedScaleView {
                address: at,
                name: text::trimmed(text_or(name, "Saved scale"@)),
                addr_type: text::trimmed(text_or(addr_type, "public"@)),
            },
        )
    }
}

/// The saved scale, out of what is stored.
pub fn read_saved_scale(address: Option<String>, name: Option<String>, addr_type: Option<String>) -> (r:
    Option<SavedScale>)
    ensures
        match stored_scale(text_view(address), text_view(name), text_view(addr_type)) {
            Some(view) => r matches Some(scale) && scale@ == view,
            None => r is None,
        },
{
    let address = match address {
        Some(s) => s,
        None => String::new(),
    };
    let address = text::trim(address.as_str());
    if address.as_str().is_empty() {
        return None;
    }
    let name = stored_or(name, "Saved scale");
    let addr_type = stored_or(addr_type, "public");
    Some(
        SavedScale {
            address,
            name: text::trim(name.as_str()),
            addr_type: text::trim(addr_type.as_str()),
        },
    )
}

/// Whether a scale can be stored.
pub open spec fn storable(scale: SavedScaleView) -> bool {
    &&& scale.address.len() > 0
    &&& byte_length(scale.address) <= MAX_SCALE_ADDR_LEN
    &&& byte_length(scale.name) <= MAX_SCALE_NAME_LEN
    &&& byte_length(scale.addr_type) <= MAX_SCALE_ADDR_TYPE_LEN
}

/// Whether a scale can be stored, or what is wrong with it.
pub fn save_saved_scale(saved_scale: &SavedScale) -> (r: Result<(), &'static str>)
    ensures
        r is Ok <==> storable(saved_scale@),
        r matches Err(m) ==> m@ == "Scale settings are invalid or out of range."@,
{
    if saved_scale.address.as_str().is_empty() || is_longer_than(
        saved_scale.address.as_str(),
        MAX_SCALE_ADDR_LEN,
    ) || is_longer_than(saved_scale.name.as_str(), MAX_SCALE_NAME_LEN) || is_longer_than(
        saved_scale.addr_type.as_str(),
        MAX_SCALE_ADDR_TYPE_LEN,
    ) {
        Err("Scale settings are invalid or out of range.")
    } else {
        Ok(())
    }
}

/// The credentials that are stored. An empty network name is none.
pub fn read_saved_credentials(ssid: Option<String>, pass: Option<String>) -> (r: (
    Option<String>,
    Option<String>,
))
    ensures
        text_view(r.0) == match text_view(ssid) {
            Some(s) => if s.len() == 0 {
                None
            } else {
                Some(s)
            },
            None => None,
        },
        text_view(r.1) == text_view(pass),
{
    let ssid = match ssid {
        Some(s) => if s.as_str().is_empty() {
            None
        } else {
            Some(s)
        },
        None => None,
    };
    (ssid, pass)
}

/// A scale that was stored is read back, where its texts have no blanks at their ends.
pub proof fn lemma_stored_scale_is_read_back(scale: SavedScaleView)
    requires
        storable(scale),
        text::trimmed(scale.address) == scale.address,
        text::trimmed(scale.name) == scale.name,
        text::trimmed(scale.addr_type) == scale.addr_type,
    ensures
        stored_scale(Some(scale.address), Some(scale.name), Some(scale.addr_type)) == Some(scale),
{
}

} // verus!

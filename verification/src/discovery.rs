//! Which services announced on the network are Stream Decks the daemon can
//! drive: a Stream Deck Studio, or a Network Dock that other decks plug into.

use vstd::prelude::*;
use crate::numbers::{parse_bounded_spec, parse_radix};
use crate::streamdeck::{ELGATO_VENDOR_ID, NETWORK_DOCK_DEVICE_TYPE, STREAM_DECK_STUDIO_PRODUCT_ID};
use crate::surfaces::DiscoveredNetworkSurface;
use crate::text::{chars_of, option_view, owned, starts_with, string_of, trim_bounds, trim_ws};

verus! {

/// What a network service announcement holds that tells a Stream Deck
/// apart: its full name, its first address, its port, and the text
/// properties `dt` (device type), `vid`, `pid` and `sn`.
#[derive(Clone, Debug)]
pub struct ServiceRecord {
    pub fullname: String,
    pub first_address: Option<String>,
    pub port: u16,
    pub device_type: Option<String>,
    pub vendor_id: Option<String>,
    pub product_id: Option<String>,
    pub serial_number: Option<String>,
}

/// The number a device id property reads as: trimmed, then hexadecimal
/// after `0x` and decimal otherwise, and at most 65535.
pub open spec fn device_id_spec(value: Seq<char>) -> Option<nat> {
    let trimmed = trim_ws(value);
    if starts_with(trimmed, "0x"@) {
        parse_bounded_spec(trimmed.skip(2), 16, 65535)
    } else {
        parse_bounded_spec(trimmed, 10, 65535)
    }
}

/// Reads a device id property, such as `0x0fd9` or `4057`.
pub fn parse_device_id(value: &str) -> (id: Option<u16>)
    ensures
        match id {
            Some(v) => device_id_spec(value@) == Some(v as nat),
            None => device_id_spec(value@) is None,
        },
{
    let chars = chars_of(value);
    let (start, end) = trim_bounds(&chars, 0, chars.len());
    proof {
        assert(chars@.subrange(0, chars@.len() as int) =~= value@);
    }
    let ghost trimmed = trim_ws(value@);
    let hexadecimal = end - start >= 2 && chars[start] == '0' && chars[start + 1] == 'x';
    proof {
        reveal_strlit("0x");
        if end - start >= 2 {
            assert(trimmed.take(2)[0] == chars@[start as int]);
            assert(trimmed.take(2)[1] == chars@[start + 1]);
            if hexadecimal {
                assert(trimmed.take(2) =~= "0x"@);
            }
        }
    }
    let parsed = if hexadecimal {
        let digits = string_of(&chars, start + 2, end);
        assert(digits@ =~= trimmed.skip(2));
        parse_radix(digits.as_str(), 16, 65535)
    } else {
        let digits = string_of(&chars, start, end);
        parse_radix(digits.as_str(), 10, 65535)
    };
    match parsed {
        Some(v) => Some(v as u16),
        None => None,
    }
}

fn optional_id(value: &Option<String>) -> (id: Option<u16>)
    ensures
        match id {
            Some(v) => value matches Some(text) && device_id_spec(text@) == Some(v as nat),
            None => value matches Some(text) ==> device_id_spec(text@) is None,
        },
{
    match value {
        Some(text) => parse_device_id(text.as_str()),
        None => None,
    }
}

/// Whether an announcement is a Network Dock's: its device type reads as
/// the dock's.
pub open spec fn announces_dock(record: ServiceRecord) -> bool {
    record.device_type matches Some(t) && device_id_spec(t@) == Some(NETWORK_DOCK_DEVICE_TYPE as nat)
}

/// Whether an announcement is a Stream Deck Studio's: Elgato's vendor id and
/// the Studio's product id.
pub open spec fn announces_studio(record: ServiceRecord) -> bool {
    &&& record.vendor_id matches Some(v) && device_id_spec(v@) == Some(ELGATO_VENDOR_ID as nat)
    &&& record.product_id matches Some(p) && device_id_spec(p@) == Some(STREAM_DECK_STUDIO_PRODUCT_ID as nat)
}

fn copy_option(value: &Option<String>) -> (copy: Option<String>)
    ensures
        option_view(copy) == option_view(*value),
{
    match value {
        Some(text) => Some(owned(text.as_str())),
        None => None,
    }
}

/// The device an announcement describes, when it is a Network Dock or a
/// Stream Deck Studio and has an address: known by its full name, reached
/// at its first address and port.
pub fn discovered_surface(record: &ServiceRecord) -> (found: Option<DiscoveredNetworkSurface>)
    ensures
        match found {
            Some(surface) => {
                &&& announces_dock(*record) || announces_studio(*record)
                &&& record.first_address matches Some(host) && surface.host@ == host@
                &&& surface.discovery_id@ == record.fullname@
                &&& surface.name@ == record.fullname@
                &&& surface.port == record.port
                &&& option_view(surface.serial_number) == option_view(record.serial_number)
                &&& surface.model@ == if announces_dock(*record) {
                    "Stream Deck Network Dock"@
                } else {
                    "Stream Deck Studio"@
                }
            },
            None => record.first_address is None || !(announces_dock(*record) || announces_studio(*record)),
        },
{
    let device_type = optional_id(&record.device_type);
    let is_dock = match device_type {
        Some(t) => t == NETWORK_DOCK_DEVICE_TYPE,
        None => false,
    };
    let model = if is_dock {
        owned("Stream Deck Network Dock")
    } else {
        let vendor = optional_id(&record.vendor_id);
        let product = optional_id(&record.product_id);
        let is_studio = match (vendor, product) {
            (Some(v), Some(p)) => v == ELGATO_VENDOR_ID && p == STREAM_DECK_STUDIO_PRODUCT_ID,
            _ => false,
        };
        if !is_studio {
            return None;
        }
        owned("Stream Deck Studio")
    };
    let host = match &record.first_address {
        Some(address) => owned(address.as_str()),
        None => return None,
    };
    Some(
        DiscoveredNetworkSurface {
            discovery_id: owned(record.fullname.as_str()),
            name: owned(record.fullname.as_str()),
            host,
            port: record.port,
            serial_number: copy_option(&record.serial_number),
            model,
        },
    )
}

} // verus!

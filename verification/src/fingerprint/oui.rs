//! MAC OUI → vendor lookup.
//!
//! A small, hand-curated table of OUIs common on home/IoT networks, so the
//! tool is useful with zero data files.

use vstd::prelude::*;

use crate::common::MacAddr;

verus! {

/// The vendor the built-in table lists for an OUI prefix.
pub open spec fn table_vendor(a: u8, b: u8, c: u8) -> Option<&'static str> {
    if a == 0xb8 && b == 0x27 && c == 0xeb {
        Some("Raspberry Pi Foundation")
    } else if a == 0xdc && b == 0xa6 && c == 0x32 {
        Some("Raspberry Pi Trading")
    } else if a == 0xe4 && b == 0x5f && c == 0x01 {
        Some("Raspberry Pi Trading")
    } else if a == 0x44 && b == 0x65 && c == 0x0d {
        Some("Amazon Technologies")
    } else if a == 0xfc && b == 0x65 && c == 0xde {
        Some("Amazon Technologies")
    } else if a == 0x68 && b == 0x37 && c == 0xe9 {
        Some("Amazon Technologies")
    } else if a == 0x18 && b == 0xb4 && c == 0x30 {
        Some("Nest Labs")
    } else if a == 0x64 && b == 0x16 && c == 0x66 {
        Some("Nest Labs")
    } else if a == 0x00 && b == 0x17 && c == 0x88 {
        Some("Philips Hue (Signify)")
    } else if a == 0xec && b == 0xb5 && c == 0xfa {
        Some("Philips Lighting")
    } else if a == 0xd0 && b == 0x73 && c == 0xd5 {
        Some("LIFX")
    } else if a == 0x50 && b == 0xc7 && c == 0xbf {
        Some("TP-Link")
    } else if a == 0x54 && b == 0x60 && c == 0x09 {
        Some("Google")
    } else if a == 0xf4 && b == 0xf5 && c == 0xd8 {
        Some("Google")
    } else if a == 0x3c && b == 0x5a && c == 0xb4 {
        Some("Google")
    } else if a == 0x24 && b == 0x0a && c == 0xc4 {
        Some("Espressif (ESP32/ESP8266)")
    } else if a == 0x7c && b == 0x9e && c == 0xbd {
        Some("Espressif (ESP32/ESP8266)")
    } else if a == 0x5c && b == 0xcf && c == 0x7f {
        Some("Espressif (ESP32/ESP8266)")
    } else if a == 0xa4 && b == 0xcf && c == 0x12 {
        Some("Espressif (ESP32/ESP8266)")
    } else if a == 0x00 && b == 0x1b && c == 0x63 {
        Some("Apple")
    } else if a == 0xac && b == 0xbc && c == 0x32 {
        Some("Apple")
    } else if a == 0xf0 && b == 0x18 && c == 0x98 {
        Some("Apple")
    } else if a == 0x00 && b == 0x0c && c == 0x29 {
        Some("VMware")
    } else {
        None
    }
}

/// The all-zero address ("unknown").
pub open spec fn is_zero_mac(mac: MacAddr) -> bool {
    mac[0] == 0 && mac[1] == 0 && mac[2] == 0 && mac[3] == 0 && mac[4] == 0 && mac[5] == 0
}

/// What `lookup` reports for a MAC: nothing for the all-zero address, a
/// marker for locally administered addresses (bit `0x02` of the first
/// octet) and for multicast addresses (bit `0x01`), otherwise the table
/// entry for the OUI.
pub open spec fn oui_vendor(mac: MacAddr) -> Option<&'static str> {
    if is_zero_mac(mac) {
        None
    } else if mac[0] & 0x02 != 0 {
        Some("(locally administered)")
    } else if mac[0] & 0x01 != 0 {
        Some("(multicast)")
    } else {
        table_vendor(mac[0], mac[1], mac[2])
    }
}

fn table_lookup(a: u8, b: u8, c: u8) -> (r: Option<&'static str>)
    ensures
        r == table_vendor(a, b, c),
{
    if a == 0xb8 && b == 0x27 && c == 0xeb {
        Some("Raspberry Pi Foundation")
    } else if a == 0xdc && b == 0xa6 && c == 0x32 {
        Some("Raspberry Pi Trading")
    } else if a == 0xe4 && b == 0x5f && c == 0x01 {
        Some("Raspberry Pi Trading")
    } else if a == 0x44 && b == 0x65 && c == 0x0d {
        Some("Amazon Technologies")
    } else if a == 0xfc && b == 0x65 && c == 0xde {
        Some("Amazon Technologies")
    } else if a == 0x68 && b == 0x37 && c == 0xe9 {
        Some("Amazon Technologies")
    } else if a == 0x18 && b == 0xb4 && c == 0x30 {
        Some("Nest Labs")
    } else if a == 0x64 && b == 0x16 && c == 0x66 {
        Some("Nest Labs")
    } else if a == 0x00 && b == 0x17 && c == 0x88 {
        Some("Philips Hue (Signify)")
    } else if a == 0xec && b == 0xb5 && c == 0xfa {
        Some("Philips Lighting")
    } else if a == 0xd0 && b == 0x73 && c == 0xd5 {
        Some("LIFX")
    } else if a == 0x50 && b == 0xc7 && c == 0xbf {
        Some("TP-Link")
    } else if a == 0x54 && b == 0x60 && c == 0x09 {
        Some("Google")
    } else if a == 0xf4 && b == 0xf5 && c == 0xd8 {
        Some("Google")
    } else if a == 0x3c && b == 0x5a && c == 0xb4 {
        Some("Google")
    } else if a == 0x24 && b == 0x0a && c == 0xc4 {
        Some("Espressif (ESP32/ESP8266)")
    } else if a == 0x7c && b == 0x9e && c == 0xbd {
        Some("Espressif (ESP32/ESP8266)")
    } else if a == 0x5c && b == 0xcf && c == 0x7f {
        Some("Espressif (ESP32/ESP8266)")
    } else if a == 0xa4 && b == 0xcf && c == 0x12 {
        Some("Espressif (ESP32/ESP8266)")
    } else if a == 0x00 && b == 0x1b && c == 0x63 {
        Some("Apple")
    } else if a == 0xac && b == 0xbc && c == 0x32 {
        Some("Apple")
    } else if a == 0xf0 && b == 0x18 && c == 0x98 {
        Some("Apple")
    } else if a == 0x00 && b == 0x0c && c == 0x29 {
        Some("VMware")
    } else {
        None
    }
}

/// Look up the vendor for a MAC's OUI prefix, if known.
///
/// Locally-administered / multicast MACs (bit 0x02 / 0x01 of the first
/// octet) are reported as such rather than matched, since they aren't real
/// OUIs.
pub fn lookup(mac: &MacAddr) -> (r: Option<&'static str>)
    ensures
        r == oui_vendor(*mac),
{
    if mac[0] == 0 && mac[1] == 0 && mac[2] == 0 && mac[3] == 0 && mac[4] == 0 && mac[5] == 0 {
        return None;
    }
    if mac[0] & 0x02 != 0 {
        return Some("(locally administered)");
    }
    if mac[0] & 0x01 != 0 {
        return Some("(multicast)");
    }
    table_lookup(mac[0], mac[1], mac[2])
}

} // verus!

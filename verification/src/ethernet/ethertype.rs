//! Common EtherType values.

use vstd::prelude::*;

verus! {

/// IPv4 (0x0800)
pub const IPV4: u16 = 0x0800;

/// IPv6 (0x86DD)
pub const IPV6: u16 = 0x86DD;

/// ARP (0x0806)
pub const ARP: u16 = 0x0806;

/// VLAN-tagged frame (802.1Q) (0x8100)
pub const VLAN: u16 = 0x8100;

/// SOME/IP (0x8123) - Automotive Ethernet
pub const SOMEIP: u16 = 0x8123;

/// DoIP - Diagnostic over IP (0x8000)
pub const DOIP: u16 = 0x8000;

/// AVB/TSN Audio Video Bridging (0x22F0)
pub const AVB: u16 = 0x22F0;

/// PROFINET (0x8892)
pub const PROFINET: u16 = 0x8892;

/// EtherCAT (0x88A4)
pub const ETHERCAT: u16 = 0x88A4;

} // verus!

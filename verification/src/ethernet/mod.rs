//! Ethernet bus integration: the ASAM `ETH_Frame` layout, MAC addresses and flags.

pub mod ethertype;
pub mod frame;
pub mod raw_logger;

pub use raw_logger::RawEthernetLogger;
pub use frame::{
    EthernetFlags, EthernetFrame, EthernetFrameView, MacAddress, ETHERTYPE_SIZE,
    ETH_HEADER_SIZE, MAC_ADDR_SIZE, MAX_ETHERNET_FRAME, MAX_ETHERNET_PAYLOAD, MAX_JUMBO_PAYLOAD,
};

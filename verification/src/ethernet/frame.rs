//! Ethernet frame types and constants for ASAM MDF4 Bus Logging.
//!
//! The `ETH_Frame` bytes are: destination MAC (6), source MAC (6), an optional
//! 802.1Q tag (EtherType 0x8100 then the 2-byte TCI), the EtherType (big-endian, 2)
//! and the payload.

use vstd::prelude::*;
use crate::bits::{lemma_mask_u8, lemma_other_bit_u8};
use crate::bytes::{be16, from_be16, lemma_be16_roundtrip, push_be16, push_slice, read_be16, copy_range};
use super::ethertype;

verus! {

/// Maximum Ethernet payload size (standard MTU).
pub const MAX_ETHERNET_PAYLOAD: usize = 1500;

/// Maximum Ethernet frame size (6 + 6 + 2 + 1500, excluding preamble and FCS).
pub const MAX_ETHERNET_FRAME: usize = 1514;

/// Jumbo frame maximum payload size.
pub const MAX_JUMBO_PAYLOAD: usize = 9000;

/// MAC address size in bytes.
pub const MAC_ADDR_SIZE: usize = 6;

/// EtherType field size in bytes.
pub const ETHERTYPE_SIZE: usize = 2;

/// Ethernet header size (dst MAC + src MAC + EtherType).
pub const ETH_HEADER_SIZE: usize = 14;

/// Ethernet frame flags for ASAM MDF4 Bus Logging.
#[derive(Debug, Clone, Copy, PartialEq, Eq, Default)]
pub struct EthernetFlags(u8);

impl EthernetFlags {
    /// Bit 0: Frame direction (0 = Rx, 1 = Tx).
    pub const TX: u8 = 0x01;

    /// Bit 1: FCS (Frame Check Sequence) is valid.
    pub const FCS_VALID: u8 = 0x02;

    /// Bit 2: Frame was truncated.
    pub const TRUNCATED: u8 = 0x04;

    /// Bit 3: CRC error detected.
    pub const CRC_ERROR: u8 = 0x08;

    /// Bit 4: Frame has VLAN tag.
    pub const VLAN_TAGGED: u8 = 0x10;

    /// The raw flag byte.
    pub closed spec fn bits(self) -> u8 {
        self.0
    }

    /// Whether the bits of `mask` are set.
    pub open spec fn has(self, mask: u8) -> bool {
        self.bits() & mask != 0
    }

    /// Create flags from raw byte.
    pub fn from_byte(value: u8) -> (r: Self)
        ensures
            r.bits() == value,
    {
        Self(value)
    }

    /// Get raw byte value.
    pub fn to_byte(self) -> (r: u8)
        ensures
            r == self.bits(),
    {
        self.0
    }

    /// Create flags for received frame.
    pub fn rx() -> (r: Self)
        ensures
            r.bits() == 0,
    {
        Self(0)
    }

    /// Create flags for transmitted frame.
    pub fn tx() -> (r: Self)
        ensures
            r.bits() == Self::TX,
    {
        Self(Self::TX)
    }

    /// Check if this is a transmitted frame.
    pub fn is_tx(self) -> (r: bool)
        ensures
            r == self.has(Self::TX),
    {
        self.0 & Self::TX != 0
    }

    /// Check if this is a received frame.
    pub fn is_rx(self) -> (r: bool)
        ensures
            r == !self.has(Self::TX),
    {
        !self.is_tx()
    }

    /// Check if FCS is valid.
    pub fn fcs_valid(self) -> (r: bool)
        ensures
            r == self.has(Self::FCS_VALID),
    {
        self.0 & Self::FCS_VALID != 0
    }

    /// Check if frame was truncated.
    pub fn is_truncated(self) -> (r: bool)
        ensures
            r == self.has(Self::TRUNCATED),
    {
        self.0 & Self::TRUNCATED != 0
    }

    /// Check if CRC error was detected.
    pub fn has_crc_error(self) -> (r: bool)
        ensures
            r == self.has(Self::CRC_ERROR),
    {
        self.0 & Self::CRC_ERROR != 0
    }

    /// Check if frame has VLAN tag.
    pub fn has_vlan_tag(self) -> (r: bool)
        ensures
            r == self.has(Self::VLAN_TAGGED),
    {
        self.0 & Self::VLAN_TAGGED != 0
    }

    /// The flags with the bits of `mask` set (`on`) or cleared: those bits then read
    /// `on` and every other bit is unchanged.
    fn with_mask(self, mask: u8, on: bool) -> (r: Self)
        requires
            mask != 0,
        ensures
            r.bits() == (if on { self.bits() | mask } else { self.bits() & !mask }),
            r.has(mask) == on,
            r.bits() & !mask == self.bits() & !mask,
    {
        proof {
            lemma_mask_u8(self.0, mask);
        }
        if on {
            Self(self.0 | mask)
        } else {
            Self(self.0 & !mask)
        }
    }

    /// Set the transmit flag.
    pub fn with_tx(self, tx: bool) -> (r: Self)
        ensures
            r.bits() == (if tx { self.bits() | Self::TX } else { self.bits() & !Self::TX }),
            r.has(Self::TX) == tx,
            r.bits() & !Self::TX == self.bits() & !Self::TX,
    {
        self.with_mask(Self::TX, tx)
    }

    /// Set the FCS valid flag.
    pub fn with_fcs_valid(self, valid: bool) -> (r: Self)
        ensures
            r.bits() == (if valid {
                self.bits() | Self::FCS_VALID
            } else {
                self.bits() & !Self::FCS_VALID
            }),
            r.has(Self::FCS_VALID) == valid,
            r.bits() & !Self::FCS_VALID == self.bits() & !Self::FCS_VALID,
    {
        self.with_mask(Self::FCS_VALID, valid)
    }

    /// Set the VLAN tagged flag.
    pub fn with_vlan_tagged(self, tagged: bool) -> (r: Self)
        ensures
            r.bits() == (if tagged {
                self.bits() | Self::VLAN_TAGGED
            } else {
                self.bits() & !Self::VLAN_TAGGED
            }),
            r.has(Self::VLAN_TAGGED) == tagged,
            r.bits() & !Self::VLAN_TAGGED == self.bits() & !Self::VLAN_TAGGED,
    {
        self.with_mask(Self::VLAN_TAGGED, tagged)
    }
}

/// Setting one Ethernet flag leaves every other flag as it reads.
pub proof fn lemma_ethernet_flag_independent(flags: EthernetFlags, set: u8, read: u8, on: bool)
    requires
        set == EthernetFlags::TX || set == EthernetFlags::FCS_VALID || set
            == EthernetFlags::VLAN_TAGGED,
        read == EthernetFlags::TX || read == EthernetFlags::FCS_VALID || read
            == EthernetFlags::TRUNCATED || read == EthernetFlags::CRC_ERROR || read
            == EthernetFlags::VLAN_TAGGED,
        set != read,
    ensures
        ((if on { flags.bits() | set } else { flags.bits() & !set }) & read != 0) == flags.has(read),
{
    assert(read & set == 0) by (bit_vector)
        requires
            set == 1 || set == 2 || set == 0x10,
            read == 1 || read == 2 || read == 4 || read == 8 || read == 0x10,
            set != read,
    ;
    lemma_other_bit_u8(flags.bits(), read, set);
}

/// MAC address representation.
#[derive(Debug, Clone, Copy, PartialEq, Eq, Hash, Default)]
pub struct MacAddress(pub [u8; 6]);

impl MacAddress {
    /// The six address bytes.
    pub open spec fn bytes(self) -> Seq<u8> {
        self.0@
    }

    /// Create a MAC address from bytes.
    pub fn new(bytes: [u8; 6]) -> (r: Self)
        ensures
            r.bytes() == bytes@,
    {
        Self(bytes)
    }

    /// Create a broadcast MAC address (FF:FF:FF:FF:FF:FF).
    pub fn broadcast() -> (r: Self)
        ensures
            r.bytes() == seq![0xFFu8, 0xFF, 0xFF, 0xFF, 0xFF, 0xFF],
    {
        let r = Self([0xFF, 0xFF, 0xFF, 0xFF, 0xFF, 0xFF]);
        assert(r.bytes() =~= seq![0xFFu8, 0xFF, 0xFF, 0xFF, 0xFF, 0xFF]);
        r
    }

    /// Create a zero/unspecified MAC address.
    pub fn zero() -> (r: Self)
        ensures
            r.bytes() == seq![0u8, 0, 0, 0, 0, 0],
    {
        let r = Self([0x00, 0x00, 0x00, 0x00, 0x00, 0x00]);
        assert(r.bytes() =~= seq![0u8, 0, 0, 0, 0, 0]);
        r
    }

    /// Check if this is a broadcast address.
    pub fn is_broadcast(&self) -> (r: bool)
        ensures
            r == (self.bytes() == seq![0xFFu8, 0xFF, 0xFF, 0xFF, 0xFF, 0xFF]),
    {
        let b = self.0;
        let r = b[0] == 0xFF && b[1] == 0xFF && b[2] == 0xFF && b[3] == 0xFF && b[4] == 0xFF
            && b[5] == 0xFF;
        assert(r ==> self.bytes() =~= seq![0xFFu8, 0xFF, 0xFF, 0xFF, 0xFF, 0xFF]);
        assert(self.bytes() == seq![0xFFu8, 0xFF, 0xFF, 0xFF, 0xFF, 0xFF] ==> self.bytes()[0]
            == 0xFF && self.bytes()[1] == 0xFF && self.bytes()[2] == 0xFF && self.bytes()[3]
            == 0xFF && self.bytes()[4] == 0xFF && self.bytes()[5] == 0xFF);
        r
    }

    /// Check if this is a multicast address (bit 0 of first byte set).
    pub fn is_multicast(&self) -> (r: bool)
        ensures
            r == (self.bytes()[0] & 0x01 != 0),
    {
        self.0[0] & 0x01 != 0
    }

    /// Check if this is a unicast address.
    pub fn is_unicast(&self) -> (r: bool)
        ensures
            r == (self.bytes()[0] & 0x01 == 0),
    {
        !self.is_multicast()
    }

    /// Check if this is a locally administered address (bit 1 of first byte set).
    pub fn is_local(&self) -> (r: bool)
        ensures
            r == (self.bytes()[0] & 0x02 != 0),
    {
        self.0[0] & 0x02 != 0
    }

    /// Get the raw bytes.
    pub fn as_bytes(&self) -> (r: &[u8; 6])
        ensures
            r@ == self.bytes(),
    {
        &self.0
    }
}

/// The broadcast address is a multicast address.
pub proof fn lemma_broadcast_is_multicast(mac: MacAddress)
    requires
        mac.bytes() == seq![0xFFu8, 0xFF, 0xFF, 0xFF, 0xFF, 0xFF],
    ensures
        mac.bytes()[0] & 0x01 != 0,
{
    assert(mac.bytes()[0] == 0xFF);
    assert(0xFFu8 & 0x01 != 0) by (bit_vector);
}

impl From<[u8; 6]> for MacAddress {
    fn from(bytes: [u8; 6]) -> (r: Self) {
        MacAddress(bytes)
    }
}

impl vstd::std_specs::convert::FromSpecImpl<[u8; 6]> for MacAddress {
    open spec fn obeys_from_spec() -> bool {
        true
    }

    open spec fn from_spec(bytes: [u8; 6]) -> Self {
        MacAddress(bytes)
    }
}

impl From<MacAddress> for [u8; 6] {
    fn from(mac: MacAddress) -> (r: Self) {
        mac.0
    }
}

impl vstd::std_specs::convert::FromSpecImpl<MacAddress> for [u8; 6] {
    open spec fn obeys_from_spec() -> bool {
        true
    }

    open spec fn from_spec(mac: MacAddress) -> Self {
        mac.0
    }
}

/// What an Ethernet frame is, as plain values.
pub struct EthernetFrameView {
    pub dst: Seq<u8>,
    pub src: Seq<u8>,
    pub ethertype: u16,
    pub payload: Seq<u8>,
    pub flags: u8,
    pub vlan_tci: Option<u16>,
}

/// An Ethernet frame for ASAM MDF4 Bus Logging.
#[derive(Debug, Clone)]
pub struct EthernetFrame {
    /// Destination MAC address.
    pub dst_mac: MacAddress,
    /// Source MAC address.
    pub src_mac: MacAddress,
    /// EtherType field (e.g., 0x0800 for IPv4).
    pub ethertype: u16,
    /// Frame payload data.
    pub payload: Vec<u8>,
    /// Frame flags (direction, FCS valid, etc.).
    pub flags: EthernetFlags,
    /// Optional VLAN tag (802.1Q TCI field).
    pub vlan_tci: Option<u16>,
}

impl View for EthernetFrame {
    type V = EthernetFrameView;

    open spec fn view(&self) -> EthernetFrameView {
        EthernetFrameView {
            dst: self.dst_mac.bytes(),
            src: self.src_mac.bytes(),
            ethertype: self.ethertype,
            payload: self.payload@,
            flags: self.flags.bits(),
            vlan_tci: self.vlan_tci,
        }
    }
}

/// The `ETH_Frame` bytes of a frame: destination, source, the 802.1Q tag when there
/// is one, the EtherType (big-endian) and the payload.
pub open spec fn spec_eth_frame_bytes(f: EthernetFrameView) -> Seq<u8> {
    f.dst + f.src + (match f.vlan_tci {
        Some(tci) => be16(ethertype::VLAN) + be16(tci),
        None => Seq::empty(),
    }) + be16(f.ethertype) + f.payload
}

/// What `from_bytes` reads from `b`: nothing when `b` is shorter than the header;
/// a tagged frame when the EtherType is 0x8100 and the tag fits; else a plain frame.
pub open spec fn spec_eth_parse(b: Seq<u8>) -> Option<EthernetFrameView> {
    if b.len() < ETH_HEADER_SIZE {
        None
    } else {
        let outer = from_be16(b[12], b[13]);
        if outer == ethertype::VLAN && b.len() >= ETH_HEADER_SIZE + 4 {
            Some(
                EthernetFrameView {
                    dst: b.subrange(0, 6),
                    src: b.subrange(6, 12),
                    ethertype: from_be16(b[16], b[17]),
                    payload: b.subrange(18, b.len() as int),
                    flags: EthernetFlags::VLAN_TAGGED,
                    vlan_tci: Some(from_be16(b[14], b[15])),
                },
            )
        } else {
            Some(
                EthernetFrameView {
                    dst: b.subrange(0, 6),
                    src: b.subrange(6, 12),
                    ethertype: outer,
                    payload: b.subrange(14, b.len() as int),
                    flags: 0,
                    vlan_tci: None,
                },
            )
        }
    }
}

/// Reading any byte string of at least a header's length and writing the frame back
/// gives the same bytes.
pub proof fn lemma_eth_parse_then_bytes(b: Seq<u8>)
    requires
        b.len() >= ETH_HEADER_SIZE,
    ensures
        spec_eth_parse(b) is Some,
        spec_eth_frame_bytes(spec_eth_parse(b).unwrap()) == b,
{
    let v = spec_eth_parse(b).unwrap();
    lemma_be16_roundtrip(0, b[12], b[13]);
    lemma_be16_roundtrip(0, b[14], b[15]);
    lemma_be16_roundtrip(0, b[16], b[17]);
    let outer = from_be16(b[12], b[13]);
    if outer == ethertype::VLAN && b.len() >= ETH_HEADER_SIZE + 4 {
        assert(be16(ethertype::VLAN) == seq![b[12], b[13]]);
        assert(spec_eth_frame_bytes(v) =~= b);
    } else {
        assert(spec_eth_frame_bytes(v) =~= b);
    }
}

/// Writing a frame and reading it back gives the same addresses, EtherType, tag and
/// payload, unless the frame is untagged, its EtherType is 0x8100 and its payload is long
/// enough to be read as a tag.
pub proof fn lemma_eth_bytes_then_parse(f: EthernetFrameView)
    requires
        f.dst.len() == 6,
        f.src.len() == 6,
        f.vlan_tci is Some || !(f.ethertype == ethertype::VLAN && f.payload.len() >= 4),
    ensures
        spec_eth_parse(spec_eth_frame_bytes(f)) is Some,
        spec_eth_parse(spec_eth_frame_bytes(f)).unwrap().dst == f.dst,
        spec_eth_parse(spec_eth_frame_bytes(f)).unwrap().src == f.src,
        spec_eth_parse(spec_eth_frame_bytes(f)).unwrap().ethertype == f.ethertype,
        spec_eth_parse(spec_eth_frame_bytes(f)).unwrap().vlan_tci == f.vlan_tci,
        spec_eth_parse(spec_eth_frame_bytes(f)).unwrap().payload == f.payload,
{
    let b = spec_eth_frame_bytes(f);
    lemma_be16_roundtrip(f.ethertype, 0, 0);
    lemma_be16_roundtrip(ethertype::VLAN, 0, 0);
    match f.vlan_tci {
        Some(tci) => {
            lemma_be16_roundtrip(tci, 0, 0);
            assert(b[12] == be16(ethertype::VLAN)[0]);
            assert(b[13] == be16(ethertype::VLAN)[1]);
            assert(b[14] == be16(tci)[0]);
            assert(b[15] == be16(tci)[1]);
            assert(b[16] == be16(f.ethertype)[0]);
            assert(b[17] == be16(f.ethertype)[1]);
            assert(b.subrange(0, 6) =~= f.dst);
            assert(b.subrange(6, 12) =~= f.src);
            assert(b.subrange(18, b.len() as int) =~= f.payload);
        },
        None => {
            assert(b[12] == be16(f.ethertype)[0]);
            assert(b[13] == be16(f.ethertype)[1]);
            assert(b.subrange(0, 6) =~= f.dst);
            assert(b.subrange(6, 12) =~= f.src);
            assert(b.subrange(14, b.len() as int) =~= f.payload);
        },
    }
}

impl EthernetFrame {
    /// Create a new Ethernet frame (received, untagged, no flags).
    pub fn new(dst_mac: MacAddress, src_mac: MacAddress, ethertype: u16, payload: Vec<u8>) -> (r:
        Self)
        ensures
            r.dst_mac == dst_mac,
            r.src_mac == src_mac,
            r.ethertype == ethertype,
            r.payload@ == payload@,
            r.flags.bits() == 0,
            r.vlan_tci is None,
    {
        Self { dst_mac, src_mac, ethertype, payload, flags: EthernetFlags(0), vlan_tci: None }
    }

    /// Create a frame from raw bytes (dst MAC + src MAC + EtherType + payload).
    ///
    /// Returns None if the bytes are too short.
    pub fn from_bytes(bytes: &[u8]) -> (r: Option<Self>)
        ensures
            r is None <==> spec_eth_parse(bytes@) is None,
            r matches Some(f) ==> spec_eth_parse(bytes@) == Some(f@),
    {
        if bytes.len() < ETH_HEADER_SIZE {
            return None;
        }
        let dst_mac = MacAddress::new([bytes[0], bytes[1], bytes[2], bytes[3], bytes[4], bytes[5]]);
        let src_mac = MacAddress::new(
            [bytes[6], bytes[7], bytes[8], bytes[9], bytes[10], bytes[11]],
        );
        let outer = read_be16(bytes[12], bytes[13]);
        let (ethertype, vlan_tci, payload_start) = if outer == ethertype::VLAN && bytes.len()
            >= ETH_HEADER_SIZE + 4 {
            let tci = read_be16(bytes[14], bytes[15]);
            let real_ethertype = read_be16(bytes[16], bytes[17]);
            (real_ethertype, Some(tci), 18usize)
        } else {
            (outer, None, ETH_HEADER_SIZE)
        };
        let payload = copy_range(bytes, payload_start, bytes.len());
        let flags = if vlan_tci.is_some() {
            EthernetFlags(EthernetFlags::VLAN_TAGGED)
        } else {
            EthernetFlags(0)
        };
        let f = Self { dst_mac, src_mac, ethertype, payload, flags, vlan_tci };
        assert(f@.dst =~= bytes@.subrange(0, 6));
        assert(f@.src =~= bytes@.subrange(6, 12));
        Some(f)
    }

    /// Serialize the frame to bytes for ASAM MDF4 ETH_Frame format.
    pub fn to_bytes(&self) -> (r: Vec<u8>)
        ensures
            r@ == spec_eth_frame_bytes(self@),
    {
        let mut bytes: Vec<u8> = Vec::new();
        push_slice(&mut bytes, self.dst_mac.as_bytes());
        push_slice(&mut bytes, self.src_mac.as_bytes());
        let ghost mid = bytes@;
        if let Some(tci) = self.vlan_tci {
            push_be16(&mut bytes, ethertype::VLAN);
            push_be16(&mut bytes, tci);
            assert(bytes@ =~= mid + (be16(ethertype::VLAN) + be16(tci)));
        } else {
            assert(bytes@ =~= mid + Seq::<u8>::empty());
        }
        push_be16(&mut bytes, self.ethertype);
        push_slice(&mut bytes, self.payload.as_slice());
        bytes
    }

    /// Get the total frame length (header + optional tag + payload).
    pub fn len(&self) -> (r: usize)
        requires
            self.payload@.len() + 18 <= usize::MAX,
        ensures
            r == spec_eth_frame_bytes(self@).len(),
    {
        let vlan_size: usize = if self.vlan_tci.is_some() { 4 } else { 0 };
        ETH_HEADER_SIZE + vlan_size + self.payload.len()
    }

    /// Check if the frame is empty (no payload).
    pub fn is_empty(&self) -> (r: bool)
        ensures
            r == (self.payload@.len() == 0),
    {
        self.payload.len() == 0
    }

    /// Set frame direction to transmit.
    pub fn with_tx(self) -> (r: Self)
        ensures
            r@ == (EthernetFrameView { flags: self.flags.bits() | EthernetFlags::TX, ..self@ }),
    {
        let mut s = self;
        s.flags = s.flags.with_tx(true);
        s
    }

    /// Set frame direction to receive.
    pub fn with_rx(self) -> (r: Self)
        ensures
            r@ == (EthernetFrameView { flags: self.flags.bits() & !EthernetFlags::TX, ..self@ }),
    {
        let mut s = self;
        s.flags = s.flags.with_tx(false);
        s
    }

    /// Set FCS valid flag.
    pub fn with_fcs_valid(self, valid: bool) -> (r: Self)
        ensures
            r@ == (EthernetFrameView {
                flags: if valid {
                    self.flags.bits() | EthernetFlags::FCS_VALID
                } else {
                    self.flags.bits() & !EthernetFlags::FCS_VALID
                },
                ..self@
            }),
    {
        let mut s = self;
        s.flags = s.flags.with_fcs_valid(valid);
        s
    }
}

} // verus!

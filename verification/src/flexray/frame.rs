//! FlexRay frame types and constants for ASAM MDF4 Bus Logging.
//!
//! The `FLEXRAY_Frame` bytes are: slot ID (2, little-endian), cycle (1), channel (1),
//! flags (2, little-endian), the low byte of the header CRC (1), the payload length (1)
//! and the payload.

use vstd::prelude::*;
use crate::bits::{lemma_mask_u16, lemma_other_bit_u16};
use crate::bytes::{le16, from_le16, lemma_le16_roundtrip, push_le16, push_slice, read_le16, copy_range};

verus! {

/// Maximum FlexRay payload size (254 bytes, 127 words of 2 bytes).
pub const MAX_FLEXRAY_PAYLOAD: usize = 254;

/// Maximum FlexRay slot ID (2047, 11 bits).
pub const MAX_SLOT_ID: u16 = 2047;

/// Maximum FlexRay cycle count (63, 6 bits).
pub const MAX_CYCLE_COUNT: u8 = 63;

/// FlexRay header size (before payload).
pub const FLEXRAY_HEADER_SIZE: usize = 8;

/// FlexRay channel identifier.
#[derive(Debug, Clone, Copy, PartialEq, Eq, Structural, Default)]
pub enum FlexRayChannel {
    /// Channel A.
    #[default]
    A,
    /// Channel B.
    B,
    /// Both channels (A and B).
    AB,
}

impl FlexRayChannel {
    /// The byte that stands for a channel: 0 for A, 1 for B, 2 for AB.
    pub open spec fn spec_code(self) -> u8 {
        match self {
            FlexRayChannel::A => 0,
            FlexRayChannel::B => 1,
            FlexRayChannel::AB => 2,
        }
    }

    /// The channel a byte stands for; every byte above 2 is read as A.
    pub open spec fn spec_from_u8(value: u8) -> Self {
        if value == 1 {
            FlexRayChannel::B
        } else if value == 2 {
            FlexRayChannel::AB
        } else {
            FlexRayChannel::A
        }
    }

    /// Create from raw byte value.
    pub fn from_u8(value: u8) -> (r: Self)
        ensures
            r == Self::spec_from_u8(value),
    {
        match value {
            0 => Self::A,
            1 => Self::B,
            2 => Self::AB,
            _ => Self::A,
        }
    }

    /// The raw byte value of the channel.
    pub fn to_u8(self) -> (r: u8)
        ensures
            r == self.spec_code(),
    {
        match self {
            Self::A => 0,
            Self::B => 1,
            Self::AB => 2,
        }
    }
}

/// Reading the code of a channel gives the channel; a byte of at most 2 is the code of
/// the channel it is read as.
pub proof fn lemma_channel_code_roundtrip(c: FlexRayChannel, b: u8)
    ensures
        FlexRayChannel::spec_from_u8(c.spec_code()) == c,
        c.spec_code() <= 2,
        b <= 2 ==> FlexRayChannel::spec_from_u8(b).spec_code() == b,
{
}

/// FlexRay frame flags for ASAM MDF4 Bus Logging.
#[derive(Debug, Clone, Copy, PartialEq, Eq, Default)]
pub struct FlexRayFlags(u16);

impl FlexRayFlags {
    /// Bit 0: Frame direction (0 = Rx, 1 = Tx).
    pub const TX: u16 = 0x0001;

    /// Bit 1: Startup frame indicator.
    pub const STARTUP: u16 = 0x0002;

    /// Bit 2: Sync frame indicator.
    pub const SYNC: u16 = 0x0004;

    /// Bit 3: Null frame indicator (no payload).
    pub const NULL_FRAME: u16 = 0x0008;

    /// Bit 4: Payload preamble indicator.
    pub const PAYLOAD_PREAMBLE: u16 = 0x0010;

    /// Bit 5: Header CRC error.
    pub const HEADER_CRC_ERROR: u16 = 0x0020;

    /// Bit 6: Frame CRC error.
    pub const FRAME_CRC_ERROR: u16 = 0x0040;

    /// Bit 7: Coding error.
    pub const CODING_ERROR: u16 = 0x0080;

    /// Bit 8: TSS violation.
    pub const TSS_VIOLATION: u16 = 0x0100;

    /// Bit 9: Valid frame received.
    pub const VALID: u16 = 0x0200;

    /// Bit 10: Network Management Vector included.
    pub const NM_VECTOR: u16 = 0x0400;

    /// Bit 11: Dynamic segment frame.
    pub const DYNAMIC: u16 = 0x0800;

    /// The four error bits: header CRC, frame CRC, coding, TSS violation.
    pub open spec fn error_mask() -> u16 {
        0x01E0
    }

    /// The raw flag word.
    pub closed spec fn bits(self) -> u16 {
        self.0
    }

    /// Whether the bits of `mask` are set.
    pub open spec fn has(self, mask: u16) -> bool {
        self.bits() & mask != 0
    }

    /// The flags whose raw word is `value`.
    pub closed spec fn spec_from_u16(value: u16) -> Self {
        FlexRayFlags(value)
    }

    /// Flags are equal exactly when their words are.
    pub proof fn lemma_bits_injective(a: Self, b: Self)
        ensures
            (a.bits() == b.bits()) == (a == b),
            Self::spec_from_u16(a.bits()) == a,
            Self::spec_from_u16(a.bits()).bits() == a.bits(),
    {
    }

    /// Create flags from raw u16.
    pub fn from_u16(value: u16) -> (r: Self)
        ensures
            r.bits() == value,
            r == Self::spec_from_u16(value),
    {
        Self(value)
    }

    /// Get raw u16 value.
    pub fn to_u16(self) -> (r: u16)
        ensures
            r == self.bits(),
    {
        self.0
    }

    /// Create flags for received frame.
    pub fn rx() -> (r: Self)
        ensures
            r.bits() == Self::VALID,
    {
        Self(Self::VALID)
    }

    /// Create flags for transmitted frame.
    pub fn tx() -> (r: Self)
        ensures
            r.bits() == Self::TX | Self::VALID,
    {
        Self(Self::TX | Self::VALID)
    }

    /// Check if this is a transmitted frame.
    pub fn is_tx(self) -> (r: bool)
        ensures
            r == self.has(Self::TX),
    {
        self.0 & Self::TX != 0
    }

    /// Check if this is a received frame.
    pub fn is_rx(self) -> (r: bool)
        ensures
            r == !self.has(Self::TX),
    {
        !self.is_tx()
    }

    /// Check if this is a startup frame.
    pub fn is_startup(self) -> (r: bool)
        ensures
            r == self.has(Self::STARTUP),
    {
        self.0 & Self::STARTUP != 0
    }

    /// Check if this is a sync frame.
    pub fn is_sync(self) -> (r: bool)
        ensures
            r == self.has(Self::SYNC),
    {
        self.0 & Self::SYNC != 0
    }

    /// Check if this is a null frame.
    pub fn is_null_frame(self) -> (r: bool)
        ensures
            r == self.has(Self::NULL_FRAME),
    {
        self.0 & Self::NULL_FRAME != 0
    }

    /// Check if payload preamble is present.
    pub fn has_payload_preamble(self) -> (r: bool)
        ensures
            r == self.has(Self::PAYLOAD_PREAMBLE),
    {
        self.0 & Self::PAYLOAD_PREAMBLE != 0
    }

    /// Check if header CRC error occurred.
    pub fn has_header_crc_error(self) -> (r: bool)
        ensures
            r == self.has(Self::HEADER_CRC_ERROR),
    {
        self.0 & Self::HEADER_CRC_ERROR != 0
    }

    /// Check if frame CRC error occurred.
    pub fn has_frame_crc_error(self) -> (r: bool)
        ensures
            r == self.has(Self::FRAME_CRC_ERROR),
    {
        self.0 & Self::FRAME_CRC_ERROR != 0
    }

    /// Check if coding error occurred.
    pub fn has_coding_error(self) -> (r: bool)
        ensures
            r == self.has(Self::CODING_ERROR),
    {
        self.0 & Self::CODING_ERROR != 0
    }

    /// Check if frame is valid.
    pub fn is_valid(self) -> (r: bool)
        ensures
            r == self.has(Self::VALID),
    {
        self.0 & Self::VALID != 0
    }

    /// Check if NM vector is included.
    pub fn has_nm_vector(self) -> (r: bool)
        ensures
            r == self.has(Self::NM_VECTOR),
    {
        self.0 & Self::NM_VECTOR != 0
    }

    /// Check if this is a dynamic segment frame.
    pub fn is_dynamic(self) -> (r: bool)
        ensures
            r == self.has(Self::DYNAMIC),
    {
        self.0 & Self::DYNAMIC != 0
    }

    /// Check if any error occurred (header CRC, frame CRC, coding or TSS violation).
    pub fn has_error(self) -> (r: bool)
        ensures
            r == self.has(Self::error_mask()),
            r == (self.has(Self::HEADER_CRC_ERROR) || self.has(Self::FRAME_CRC_ERROR) || self.has(
                Self::CODING_ERROR,
            ) || self.has(Self::TSS_VIOLATION)),
    {
        let x = self.0;
        assert((x & 0x01E0u16 != 0) == (x & 0x20u16 != 0 || x & 0x40u16 != 0 || x & 0x80u16 != 0
            || x & 0x100u16 != 0)) by (bit_vector);
        let mask = Self::HEADER_CRC_ERROR | Self::FRAME_CRC_ERROR | Self::CODING_ERROR
            | Self::TSS_VIOLATION;
        assert(0x20u16 | 0x40u16 | 0x80u16 | 0x100u16 == 0x01E0u16) by (bit_vector);
        x & mask != 0
    }

    /// The flags with the bits of `mask` set (`on`) or cleared.
    fn with_mask(self, mask: u16, on: bool) -> (r: Self)
        requires
            mask != 0,
        ensures
            r.bits() == (if on { self.bits() | mask } else { self.bits() & !mask }),
            r.has(mask) == on,
            r.bits() & !mask == self.bits() & !mask,
    {
        proof {
            lemma_mask_u16(self.0, mask);
        }
        if on {
            Self(self.0 | mask)
        } else {
            Self(self.0 & !mask)
        }
    }

    /// Set the transmit flag.
    pub fn with_tx(self, tx: bool) -> (r: Self)
        ensures
            r.bits() == (if tx { self.bits() | Self::TX } else { self.bits() & !Self::TX }),
            r.has(Self::TX) == tx,
            r.bits() & !Self::TX == self.bits() & !Self::TX,
    {
        self.with_mask(Self::TX, tx)
    }

    /// Set the valid flag.
    pub fn with_valid(self, valid: bool) -> (r: Self)
        ensures
            r.bits() == (if valid {
                self.bits() | Self::VALID
            } else {
                self.bits() & !Self::VALID
            }),
            r.has(Self::VALID) == valid,
            r.bits() & !Self::VALID == self.bits() & !Self::VALID,
    {
        self.with_mask(Self::VALID, valid)
    }

    /// Set the startup flag.
    pub fn with_startup(self, startup: bool) -> (r: Self)
        ensures
            r.bits() == (if startup {
                self.bits() | Self::STARTUP
            } else {
                self.bits() & !Self::STARTUP
            }),
            r.has(Self::STARTUP) == startup,
            r.bits() & !Self::STARTUP == self.bits() & !Self::STARTUP,
    {
        self.with_mask(Self::STARTUP, startup)
    }

    /// Set the sync flag.
    pub fn with_sync(self, sync: bool) -> (r: Self)
        ensures
            r.bits() == (if sync { self.bits() | Self::SYNC } else { self.bits() & !Self::SYNC }),
            r.has(Self::SYNC) == sync,
            r.bits() & !Self::SYNC == self.bits() & !Self::SYNC,
    {
        self.with_mask(Self::SYNC, sync)
    }

    /// Set the null frame flag.
    pub fn with_null_frame(self, null_frame: bool) -> (r: Self)
        ensures
            r.bits() == (if null_frame {
                self.bits() | Self::NULL_FRAME
            } else {
                self.bits() & !Self::NULL_FRAME
            }),
            r.has(Self::NULL_FRAME) == null_frame,
            r.bits() & !Self::NULL_FRAME == self.bits() & !Self::NULL_FRAME,
    {
        self.with_mask(Self::NULL_FRAME, null_frame)
    }

    /// Set the dynamic segment flag.
    pub fn with_dynamic(self, dynamic: bool) -> (r: Self)
        ensures
            r.bits() == (if dynamic {
                self.bits() | Self::DYNAMIC
            } else {
                self.bits() & !Self::DYNAMIC
            }),
            r.has(Self::DYNAMIC) == dynamic,
            r.bits() & !Self::DYNAMIC == self.bits() & !Self::DYNAMIC,
    {
        self.with_mask(Self::DYNAMIC, dynamic)
    }
}

/// A single FlexRay flag bit.
pub open spec fn is_flexray_flag_bit(m: u16) -> bool {
    m == 0x1 || m == 0x2 || m == 0x4 || m == 0x8 || m == 0x10 || m == 0x20 || m == 0x40 || m
        == 0x80 || m == 0x100 || m == 0x200 || m == 0x400 || m == 0x800
}

/// Setting or clearing one FlexRay flag leaves every other flag as it reads.
pub proof fn lemma_flexray_flag_independent(flags: FlexRayFlags, set: u16, read: u16, on: bool)
    requires
        is_flexray_flag_bit(set),
        is_flexray_flag_bit(read),
        set != read,
    ensures
        ((if on { flags.bits() | set } else { flags.bits() & !set }) & read != 0) == flags.has(read),
{
    assert(read & set == 0) by (bit_vector)
        requires
            set == 0x1 || set == 0x2 || set == 0x4 || set == 0x8 || set == 0x10 || set == 0x20
                || set == 0x40 || set == 0x80 || set == 0x100 || set == 0x200 || set == 0x400
                || set == 0x800,
            read == 0x1 || read == 0x2 || read == 0x4 || read == 0x8 || read == 0x10 || read
                == 0x20 || read == 0x40 || read == 0x80 || read == 0x100 || read == 0x200 || read
                == 0x400 || read == 0x800,
            set != read,
    ;
    lemma_other_bit_u16(flags.bits(), read, set);
}

/// What a FlexRay frame is, as plain values.
pub struct FlexRayFrameView {
    pub slot_id: u16,
    pub cycle: u8,
    pub channel: FlexRayChannel,
    pub flags: u16,
    pub header_crc: u16,
    pub payload: Seq<u8>,
}

/// A FlexRay frame for ASAM MDF4 Bus Logging.
#[derive(Debug, Clone)]
pub struct FlexRayFrame {
    /// Slot ID (1-2047).
    pub slot_id: u16,
    /// Cycle count (0-63).
    pub cycle: u8,
    /// Channel (A, B, or AB).
    pub channel: FlexRayChannel,
    /// Frame flags.
    pub flags: FlexRayFlags,
    /// Header CRC (11 bits).
    pub header_crc: u16,
    /// Payload data (up to 254 bytes).
    pub payload: Vec<u8>,
}

impl View for FlexRayFrame {
    type V = FlexRayFrameView;

    open spec fn view(&self) -> FlexRayFrameView {
        FlexRayFrameView {
            slot_id: self.slot_id,
            cycle: self.cycle,
            channel: self.channel,
            flags: self.flags.bits(),
            header_crc: self.header_crc,
            payload: self.payload@,
        }
    }
}

/// The slot ID a requested one is stored as: at most 2047.
pub open spec fn spec_clamp_slot(slot_id: u16) -> u16 {
    if slot_id < MAX_SLOT_ID {
        slot_id
    } else {
        MAX_SLOT_ID
    }
}

/// The payload a requested one is stored as: its first 254 bytes.
pub open spec fn spec_clip_payload(p: Seq<u8>) -> Seq<u8> {
    if p.len() > MAX_FLEXRAY_PAYLOAD {
        p.subrange(0, MAX_FLEXRAY_PAYLOAD as int)
    } else {
        p
    }
}

/// The frame that `new` builds: slot clamped, cycle masked to 6 bits, payload clipped,
/// received-valid flags, header CRC 0.
pub open spec fn spec_new_frame(slot_id: u16, cycle: u8, channel: FlexRayChannel, payload: Seq<
    u8,
>) -> FlexRayFrameView {
    FlexRayFrameView {
        slot_id: spec_clamp_slot(slot_id),
        cycle: cycle & MAX_CYCLE_COUNT,
        channel,
        flags: FlexRayFlags::VALID,
        header_crc: 0,
        payload: spec_clip_payload(payload),
    }
}

/// The `FLEXRAY_Frame` bytes of a frame.
pub open spec fn spec_flexray_bytes(f: FlexRayFrameView) -> Seq<u8> {
    le16(f.slot_id) + seq![f.cycle, f.channel.spec_code()] + le16(f.flags) + seq![
        (f.header_crc & 0xff) as u8,
        f.payload.len() as u8,
    ] + f.payload
}

/// What `from_bytes` reads from `b`: nothing when the header or the payload it announces
/// does not fit; else the frame, with the header CRC's low byte.
pub open spec fn spec_flexray_parse(b: Seq<u8>) -> Option<FlexRayFrameView> {
    if b.len() < FLEXRAY_HEADER_SIZE || b.len() < FLEXRAY_HEADER_SIZE + b[7] {
        None
    } else {
        Some(
            FlexRayFrameView {
                slot_id: from_le16(b[0], b[1]),
                cycle: b[2],
                channel: FlexRayChannel::spec_from_u8(b[3]),
                flags: from_le16(b[4], b[5]),
                header_crc: b[6] as u16,
                payload: b.subrange(8, 8 + b[7]),
            },
        )
    }
}

/// Writing a frame whose payload length fits in a byte and reading it back gives the
/// same frame, with only the low byte of its header CRC.
pub proof fn lemma_flexray_bytes_then_parse(f: FlexRayFrameView)
    requires
        f.payload.len() <= 255,
    ensures
        spec_flexray_parse(spec_flexray_bytes(f)) == Some(
            FlexRayFrameView { header_crc: f.header_crc & 0xff, ..f },
        ),
{
    let b = spec_flexray_bytes(f);
    lemma_le16_roundtrip(f.slot_id, 0, 0);
    lemma_le16_roundtrip(f.flags, 0, 0);
    lemma_channel_code_roundtrip(f.channel, 0);
    let h = f.header_crc;
    assert((((h & 0xff) as u8) as u16) == h & 0xff) by (bit_vector);
    assert(b[0] == le16(f.slot_id)[0]);
    assert(b[1] == le16(f.slot_id)[1]);
    assert(b[4] == le16(f.flags)[0]);
    assert(b[5] == le16(f.flags)[1]);
    assert(b[7] == f.payload.len());
    assert(b.subrange(8, 8 + b[7]) =~= f.payload);
}

/// Reading a frame whose channel byte is at most 2 and writing it back gives the bytes
/// that were read: the header and the payload it announces.
pub proof fn lemma_flexray_parse_then_bytes(b: Seq<u8>)
    requires
        spec_flexray_parse(b) is Some,
        b[3] <= 2,
    ensures
        spec_flexray_bytes(spec_flexray_parse(b).unwrap()) == b.subrange(0, 8 + b[7]),
{
    let f = spec_flexray_parse(b).unwrap();
    lemma_le16_roundtrip(0, b[0], b[1]);
    lemma_le16_roundtrip(0, b[4], b[5]);
    lemma_channel_code_roundtrip(FlexRayChannel::A, b[3]);
    let c = b[6];
    assert((((c as u16) & 0xff) as u8) == c) by (bit_vector);
    assert(spec_flexray_bytes(f) =~= b.subrange(0, 8 + b[7]));
}

impl FlexRayFrame {
    /// Create a new FlexRay frame: the slot ID is clamped to 2047, the cycle masked to
    /// 6 bits and the payload clipped to 254 bytes.
    pub fn new(slot_id: u16, cycle: u8, channel: FlexRayChannel, payload: Vec<u8>) -> (r: Self)
        ensures
            r@ == spec_new_frame(slot_id, cycle, channel, payload@),
    {
        let slot = if slot_id < MAX_SLOT_ID { slot_id } else { MAX_SLOT_ID };
        let payload = if payload.len() > MAX_FLEXRAY_PAYLOAD {
            copy_range(payload.as_slice(), 0, MAX_FLEXRAY_PAYLOAD)
        } else {
            payload
        };
        Self {
            slot_id: slot,
            cycle: cycle & MAX_CYCLE_COUNT,
            channel,
            flags: FlexRayFlags(FlexRayFlags::VALID),
            header_crc: 0,
            payload,
        }
    }

    /// Create a new FlexRay frame on channel A.
    pub fn channel_a(slot_id: u16, cycle: u8, payload: Vec<u8>) -> (r: Self)
        ensures
            r@ == spec_new_frame(slot_id, cycle, FlexRayChannel::A, payload@),
    {
        Self::new(slot_id, cycle, FlexRayChannel::A, payload)
    }

    /// Create a new FlexRay frame on channel B.
    pub fn channel_b(slot_id: u16, cycle: u8, payload: Vec<u8>) -> (r: Self)
        ensures
            r@ == spec_new_frame(slot_id, cycle, FlexRayChannel::B, payload@),
    {
        Self::new(slot_id, cycle, FlexRayChannel::B, payload)
    }

    /// Create a null frame (no payload, null-frame flag set).
    pub fn null_frame(slot_id: u16, cycle: u8, channel: FlexRayChannel) -> (r: Self)
        ensures
            r@ == (FlexRayFrameView {
                flags: FlexRayFlags::VALID | FlexRayFlags::NULL_FRAME,
                ..spec_new_frame(slot_id, cycle, channel, Seq::empty())
            }),
    {
        let mut frame = Self::new(slot_id, cycle, channel, Vec::new());
        frame.flags = frame.flags.with_null_frame(true);
        frame
    }

    /// Create a startup frame (startup and sync flags set).
    pub fn startup(slot_id: u16, cycle: u8, channel: FlexRayChannel, payload: Vec<u8>) -> (r:
        Self)
        ensures
            r@ == (FlexRayFrameView {
                flags: FlexRayFlags::VALID | FlexRayFlags::STARTUP | FlexRayFlags::SYNC,
                ..spec_new_frame(slot_id, cycle, channel, payload@)
            }),
    {
        let mut frame = Self::new(slot_id, cycle, channel, payload);
        frame.flags = frame.flags.with_startup(true).with_sync(true);
        frame
    }

    /// Set frame direction to transmit.
    pub fn with_tx(self) -> (r: Self)
        ensures
            r@ == (FlexRayFrameView { flags: self.flags.bits() | FlexRayFlags::TX, ..self@ }),
    {
        let mut s = self;
        s.flags = s.flags.with_tx(true);
        s
    }

    /// Set frame direction to receive.
    pub fn with_rx(self) -> (r: Self)
        ensures
            r@ == (FlexRayFrameView { flags: self.flags.bits() & !FlexRayFlags::TX, ..self@ }),
    {
        let mut s = self;
        s.flags = s.flags.with_tx(false);
        s
    }

    /// Set frame as dynamic segment.
    pub fn with_dynamic(self) -> (r: Self)
        ensures
            r@ == (FlexRayFrameView { flags: self.flags.bits() | FlexRayFlags::DYNAMIC, ..self@ }),
    {
        let mut s = self;
        s.flags = s.flags.with_dynamic(true);
        s
    }

    /// Serialize the frame to bytes for ASAM MDF4 FLEXRAY_Frame format.
    pub fn to_bytes(&self) -> (r: Vec<u8>)
        ensures
            r@ == spec_flexray_bytes(self@),
    {
        let mut bytes: Vec<u8> = Vec::new();
        push_le16(&mut bytes, self.slot_id);
        bytes.push(self.cycle);
        bytes.push(self.channel.to_u8());
        push_le16(&mut bytes, self.flags.to_u16());
        bytes.push((self.header_crc & 0xFF) as u8);
        bytes.push(self.payload.len() as u8);
        push_slice(&mut bytes, self.payload.as_slice());
        assert(bytes@ =~= spec_flexray_bytes(self@));
        bytes
    }

    /// Parse a frame from ASAM MDF4 FLEXRAY_Frame format bytes.
    pub fn from_bytes(bytes: &[u8]) -> (r: Option<Self>)
        ensures
            r is None <==> spec_flexray_parse(bytes@) is None,
            r matches Some(f) ==> spec_flexray_parse(bytes@) == Some(f@),
    {
        if bytes.len() < FLEXRAY_HEADER_SIZE {
            return None;
        }
        let payload_len = bytes[7] as usize;
        if bytes.len() < FLEXRAY_HEADER_SIZE + payload_len {
            return None;
        }
        let payload = copy_range(bytes, FLEXRAY_HEADER_SIZE, FLEXRAY_HEADER_SIZE + payload_len);
        Some(
            Self {
                slot_id: read_le16(bytes[0], bytes[1]),
                cycle: bytes[2],
                channel: FlexRayChannel::from_u8(bytes[3]),
                flags: FlexRayFlags(read_le16(bytes[4], bytes[5])),
                header_crc: bytes[6] as u16,
                payload,
            },
        )
    }

    /// Get the payload slice.
    pub fn payload(&self) -> (r: &[u8])
        ensures
            r@ == self.payload@,
    {
        self.payload.as_slice()
    }

    /// Get payload length.
    pub fn payload_len(&self) -> (r: usize)
        ensures
            r == self.payload@.len(),
    {
        self.payload.len()
    }
}

impl Default for FlexRayFrame {
    fn default() -> (r: Self)
        ensures
            r@ == spec_new_frame(1, 0, FlexRayChannel::A, Seq::empty()),
    {
        Self::new(1, 0, FlexRayChannel::A, Vec::new())
    }
}

} // verus!

//! LIN frame types and constants for ASAM MDF4 Bus Logging.
//!
//! The `LIN_Frame` bytes are: ID (1), data length (1), flags (1), checksum (1) and the
//! eight data bytes.

use vstd::prelude::*;
use vstd::slice::slice_subrange;
use crate::bits::{lemma_mask_u8, lemma_other_bit_u8};
use crate::bytes::push_slice;

verus! {

/// Maximum LIN data length (8 bytes).
pub const MAX_LIN_DATA_LEN: usize = 8;

/// Maximum LIN frame ID (63, 6 bits).
pub const MAX_LIN_ID: u8 = 63;

/// LIN checksum type.
#[derive(Debug, Clone, Copy, PartialEq, Eq, Structural, Default)]
pub enum ChecksumType {
    /// Classic checksum (LIN 1.x): sum over data bytes only.
    #[default]
    Classic,
    /// Enhanced checksum (LIN 2.x): sum over protected ID and data bytes.
    Enhanced,
}

impl ChecksumType {
    /// Create from raw byte value: 1 is Enhanced, every other byte Classic.
    pub fn from_u8(value: u8) -> (r: Self)
        ensures
            r == (if value == 1 { ChecksumType::Enhanced } else { ChecksumType::Classic }),
    {
        match value {
            1 => Self::Enhanced,
            _ => Self::Classic,
        }
    }
}

/// LIN schedule table entry type.
#[derive(Debug, Clone, Copy, PartialEq, Eq)]
pub enum ScheduleEntryType {
    /// Unconditional frame.
    Unconditional,
    /// Event-triggered frame.
    EventTriggered,
    /// Sporadic frame.
    Sporadic,
    /// Diagnostic master request (0x3C).
    DiagnosticRequest,
    /// Diagnostic slave response (0x3D).
    DiagnosticResponse,
}

/// LIN frame flags for ASAM MDF4 Bus Logging.
#[derive(Debug, Clone, Copy, PartialEq, Eq, Default)]
pub struct LinFlags(u8);

impl LinFlags {
    /// Bit 0: Frame direction (0 = Rx, 1 = Tx).
    pub const TX: u8 = 0x01;

    /// Bit 1: Wake-up frame.
    pub const WAKEUP: u8 = 0x02;

    /// Bit 2: Checksum error.
    pub const CHECKSUM_ERROR: u8 = 0x04;

    /// Bit 3: No response from slave.
    pub const NO_RESPONSE: u8 = 0x08;

    /// Bit 4: Sync byte error.
    pub const SYNC_ERROR: u8 = 0x10;

    /// Bit 5: Framing error.
    pub const FRAMING_ERROR: u8 = 0x20;

    /// Bit 6: Short response (fewer bytes than expected).
    pub const SHORT_RESPONSE: u8 = 0x40;

    /// Bit 7: Enhanced checksum used.
    pub const ENHANCED_CHECKSUM: u8 = 0x80;

    /// The five error bits: checksum, no response, sync, framing, short response.
    pub open spec fn error_mask() -> u8 {
        0x7C
    }

    /// The raw flag byte.
    pub closed spec fn bits(self) -> u8 {
        self.0
    }

    /// Whether the bits of `mask` are set.
    pub open spec fn has(self, mask: u8) -> bool {
        self.bits() & mask != 0
    }

    /// The flags whose raw byte is `value`.
    pub closed spec fn spec_from_byte(value: u8) -> Self {
        LinFlags(value)
    }

    /// Flags are equal exactly when their bytes are, and a byte read back is the byte.
    pub proof fn lemma_bits_injective(a: Self, b: Self, v: u8)
        ensures
            (a.bits() == b.bits()) == (a == b),
            Self::spec_from_byte(v).bits() == v,
    {
    }

    /// Create flags from raw byte.
    pub fn from_byte(value: u8) -> (r: Self)
        ensures
            r == Self::spec_from_byte(value),
            r.bits() == value,
    {
        Self(value)
    }

    /// Get raw byte value.
    pub fn to_byte(self) -> (r: u8)
        ensures
            r == self.bits(),
    {
        self.0
    }

    /// Create flags for received frame.
    pub fn rx() -> (r: Self)
        ensures
            r.bits() == 0,
    {
        Self(0)
    }

    /// Create flags for transmitted frame.
    pub fn tx() -> (r: Self)
        ensures
            r.bits() == Self::TX,
    {
        Self(Self::TX)
    }

    /// Check if this is a transmitted frame.
    pub fn is_tx(self) -> (r: bool)
        ensures
            r == self.has(Self::TX),
    {
        self.0 & Self::TX != 0
    }

    /// Check if this is a received frame.
    pub fn is_rx(self) -> (r: bool)
        ensures
            r == !self.has(Self::TX),
    {
        !self.is_tx()
    }

    /// Check if this is a wake-up frame.
    pub fn is_wakeup(self) -> (r: bool)
        ensures
            r == self.has(Self::WAKEUP),
    {
        self.0 & Self::WAKEUP != 0
    }

    /// Check if checksum error occurred.
    pub fn has_checksum_error(self) -> (r: bool)
        ensures
            r == self.has(Self::CHECKSUM_ERROR),
    {
        self.0 & Self::CHECKSUM_ERROR != 0
    }

    /// Check if no response was received.
    pub fn has_no_response(self) -> (r: bool)
        ensures
            r == self.has(Self::NO_RESPONSE),
    {
        self.0 & Self::NO_RESPONSE != 0
    }

    /// Check if sync error occurred.
    pub fn has_sync_error(self) -> (r: bool)
        ensures
            r == self.has(Self::SYNC_ERROR),
    {
        self.0 & Self::SYNC_ERROR != 0
    }

    /// Check if framing error occurred.
    pub fn has_framing_error(self) -> (r: bool)
        ensures
            r == self.has(Self::FRAMING_ERROR),
    {
        self.0 & Self::FRAMING_ERROR != 0
    }

    /// Check if short response occurred.
    pub fn has_short_response(self) -> (r: bool)
        ensures
            r == self.has(Self::SHORT_RESPONSE),
    {
        self.0 & Self::SHORT_RESPONSE != 0
    }

    /// Check if enhanced checksum is used.
    pub fn uses_enhanced_checksum(self) -> (r: bool)
        ensures
            r == self.has(Self::ENHANCED_CHECKSUM),
    {
        self.0 & Self::ENHANCED_CHECKSUM != 0
    }

    /// Check if any error occurred.
    pub fn has_error(self) -> (r: bool)
        ensures
            r == self.has(Self::error_mask()),
            r == (self.has(Self::CHECKSUM_ERROR) || self.has(Self::NO_RESPONSE) || self.has(
                Self::SYNC_ERROR,
            ) || self.has(Self::FRAMING_ERROR) || self.has(Self::SHORT_RESPONSE)),
    {
        let x = self.0;
        assert((x & 0x7Cu8 != 0) == (x & 0x04u8 != 0 || x & 0x08u8 != 0 || x & 0x10u8 != 0 || x
            & 0x20u8 != 0 || x & 0x40u8 != 0)) by (bit_vector);
        let mask = Self::CHECKSUM_ERROR | Self::NO_RESPONSE | Self::SYNC_ERROR
            | Self::FRAMING_ERROR | Self::SHORT_RESPONSE;
        assert(0x04u8 | 0x08u8 | 0x10u8 | 0x20u8 | 0x40u8 == 0x7Cu8) by (bit_vector);
        x & mask != 0
    }

    /// The flags with the bits of `mask` set (`on`) or cleared.
    fn with_mask(self, mask: u8, on: bool) -> (r: Self)
        requires
            mask != 0,
        ensures
            r.bits() == (if on { self.bits() | mask } else { self.bits() & !mask }),
            r.has(mask) == on,
            r.bits() & !mask == self.bits() & !mask,
    {
        proof {
            lemma_mask_u8(self.0, mask);
        }
        if on {
            Self(self.0 | mask)
        } else {
            Self(self.0 & !mask)
        }
    }

    /// Set the transmit flag.
    pub fn with_tx(self, tx: bool) -> (r: Self)
        ensures
            r.bits() == (if tx { self.bits() | Self::TX } else { self.bits() & !Self::TX }),
            r.has(Self::TX) == tx,
            r.bits() & !Self::TX == self.bits() & !Self::TX,
    {
        self.with_mask(Self::TX, tx)
    }

    /// Set the enhanced checksum flag.
    pub fn with_enhanced_checksum(self, enhanced: bool) -> (r: Self)
        ensures
            r.bits() == (if enhanced {
                self.bits() | Self::ENHANCED_CHECKSUM
            } else {
                self.bits() & !Self::ENHANCED_CHECKSUM
            }),
            r.has(Self::ENHANCED_CHECKSUM) == enhanced,
            r.bits() & !Self::ENHANCED_CHECKSUM == self.bits() & !Self::ENHANCED_CHECKSUM,
    {
        self.with_mask(Self::ENHANCED_CHECKSUM, enhanced)
    }
}

/// Setting one of the two settable LIN flags leaves every other flag as it reads.
pub proof fn lemma_lin_flag_independent(flags: LinFlags, set: u8, read: u8, on: bool)
    requires
        set == LinFlags::TX || set == LinFlags::ENHANCED_CHECKSUM,
        read == 0x01 || read == 0x02 || read == 0x04 || read == 0x08 || read == 0x10 || read
            == 0x20 || read == 0x40 || read == 0x80,
        set != read,
    ensures
        ((if on { flags.bits() | set } else { flags.bits() & !set }) & read != 0) == flags.has(read),
{
    assert(read & set == 0) by (bit_vector)
        requires
            set == 0x01 || set == 0x80,
            read == 0x01 || read == 0x02 || read == 0x04 || read == 0x08 || read == 0x10 || read
                == 0x20 || read == 0x40 || read == 0x80,
            set != read,
    ;
    lemma_other_bit_u8(flags.bits(), read, set);
}

/// The LIN sum with carry: bytes are added one at a time, starting from `init`, and every
/// sum above 255 has 255 taken off (the carry is added back into the low byte).
pub open spec fn carry_sum(s: Seq<u8>, init: int) -> int
    decreases s.len(),
{
    if s.len() == 0 {
        init
    } else {
        let t = carry_sum(s.drop_last(), init) + s.last();
        if t > 255 {
            t - 255
        } else {
            t
        }
    }
}

/// The LIN checksum of `s` seeded with `init`: the inverse of the sum with carry.
pub open spec fn spec_lin_checksum(s: Seq<u8>, init: u8) -> u8 {
    (255 - carry_sum(s, init as int)) as u8
}

/// The protected identifier: the 6-bit ID with parity bits P0 (bit 6) and P1 (bit 7).
pub open spec fn spec_protected_id(id: u8) -> u8 {
    let i = id & 0x3F;
    let p0 = (i ^ (i >> 1u8) ^ (i >> 2u8) ^ (i >> 4u8)) & 0x01;
    let p1 = !((i >> 1u8) ^ (i >> 3u8) ^ (i >> 4u8) ^ (i >> 5u8)) & 0x01;
    i | (p0 << 6u8) | (p1 << 7u8)
}

/// The sum with carry of bytes seeded with at most 255 stays at most 255.
pub proof fn lemma_carry_sum_bound(s: Seq<u8>, init: int)
    requires
        0 <= init <= 255,
    ensures
        0 <= carry_sum(s, init) <= 255,
    decreases s.len(),
{
    if s.len() > 0 {
        lemma_carry_sum_bound(s.drop_last(), init);
    }
}

/// A receiver that sums the data and then the checksum, with carry and the same seed,
/// gets 0xFF: the checksum is what makes the frame check out.
pub proof fn lemma_lin_checksum_checks(s: Seq<u8>, init: u8)
    ensures
        carry_sum(s.push(spec_lin_checksum(s, init)), init as int) == 255,
{
    lemma_carry_sum_bound(s, init as int);
    assert(s.push(spec_lin_checksum(s, init)).drop_last() =~= s);
}

/// The protected ID keeps the frame ID in its six low bits.
pub proof fn lemma_protected_id_keeps_id(id: u8)
    ensures
        spec_protected_id(id) & 0x3F == id & 0x3F,
{
    let i = id & 0x3F;
    assert(((id & 0x3F) | ((((id & 0x3F) ^ ((id & 0x3F) >> 1u8) ^ ((id & 0x3F) >> 2u8) ^ ((id
        & 0x3F) >> 4u8)) & 0x01) << 6u8) | ((!(((id & 0x3F) >> 1u8) ^ ((id & 0x3F) >> 3u8) ^ ((
    id & 0x3F) >> 4u8) ^ ((id & 0x3F) >> 5u8)) & 0x01) << 7u8)) & 0x3F == id & 0x3F)
        by (bit_vector);
}

/// The protected ID of a frame ID (LIN 2.x): its six low bits are the ID's; bit 6 (P0)
/// is the XOR of ID bits 0, 1, 2 and 4; bit 7 (P1) is the inverse of the XOR of ID bits
/// 1, 3, 4 and 5.
pub proof fn lemma_protected_id_parity(id: u8)
    ensures
        spec_protected_id(id) & 0x3F == id & 0x3F,
        (spec_protected_id(id) >> 6u8) & 1 == (id ^ (id >> 1u8) ^ (id >> 2u8) ^ (id >> 4u8)) & 1,
        (spec_protected_id(id) >> 7u8) & 1 != ((id >> 1u8) ^ (id >> 3u8) ^ (id >> 4u8) ^ (id >> 5u8)) & 1,
{
    lemma_protected_id_keeps_id(id);
    let x = spec_protected_id(id);
    assert(x == ((id & 0x3F) | ((((id & 0x3F) ^ ((id & 0x3F) >> 1u8) ^ ((id & 0x3F) >> 2u8) ^ ((id
        & 0x3F) >> 4u8)) & 0x01) << 6u8) | ((!(((id & 0x3F) >> 1u8) ^ ((id & 0x3F) >> 3u8) ^ ((
    id & 0x3F) >> 4u8) ^ ((id & 0x3F) >> 5u8)) & 0x01) << 7u8)));
    assert(x == ((id & 0x3F) | ((((id & 0x3F) ^ ((id & 0x3F) >> 1u8) ^ ((id & 0x3F) >> 2u8) ^ ((id
        & 0x3F) >> 4u8)) & 0x01) << 6u8) | ((!(((id & 0x3F) >> 1u8) ^ ((id & 0x3F) >> 3u8) ^ ((
    id & 0x3F) >> 4u8) ^ ((id & 0x3F) >> 5u8)) & 0x01) << 7u8)) ==> (x >> 6u8) & 1 == (id ^ (id >> 1u8)
        ^ (id >> 2u8) ^ (id >> 4u8)) & 1 && (x >> 7u8) & 1 != ((id >> 1u8) ^ (id >> 3u8) ^ (id >> 4u8)
        ^ (id >> 5u8)) & 1) by (bit_vector);
}

/// What a LIN frame is, as plain values.
pub struct LinFrameView {
    pub id: u8,
    pub data: Seq<u8>,
    pub data_len: u8,
    pub flags: u8,
    pub checksum: u8,
}

/// A LIN frame for ASAM MDF4 Bus Logging.
#[derive(Debug, Clone)]
pub struct LinFrame {
    /// Frame ID (0-63, 6 bits).
    pub id: u8,
    /// Data bytes (up to 8 bytes).
    pub data: [u8; 8],
    /// Actual data length (0-8).
    pub data_len: u8,
    /// Frame flags.
    pub flags: LinFlags,
    /// Checksum byte.
    pub checksum: u8,
}

impl View for LinFrame {
    type V = LinFrameView;

    open spec fn view(&self) -> LinFrameView {
        LinFrameView {
            id: self.id,
            data: self.data@,
            data_len: self.data_len,
            flags: self.flags.bits(),
            checksum: self.checksum,
        }
    }
}

/// The data bytes that count: the first `data_len`.
pub open spec fn spec_lin_payload(f: LinFrameView) -> Seq<u8> {
    f.data.subrange(0, f.data_len as int)
}

/// The number of bytes `new` keeps from `data`: at most eight.
pub open spec fn spec_lin_len(data: Seq<u8>) -> int {
    if data.len() < 8 {
        data.len() as int
    } else {
        8
    }
}

/// The eight data bytes `new` stores: the kept bytes, then zeros.
pub open spec fn spec_lin_data(data: Seq<u8>) -> Seq<u8> {
    Seq::new(8, |k: int| if k < spec_lin_len(data) { data[k] } else { 0u8 })
}

/// The frame `new` builds: ID masked to 6 bits, data clipped to eight bytes and padded,
/// no flags, checksum 0.
pub open spec fn spec_new_lin(id: u8, data: Seq<u8>) -> LinFrameView {
    LinFrameView {
        id: id & MAX_LIN_ID,
        data: spec_lin_data(data),
        data_len: spec_lin_len(data) as u8,
        flags: 0,
        checksum: 0,
    }
}

/// The `LIN_Frame` bytes of a frame.
pub open spec fn spec_lin_bytes(f: LinFrameView) -> Seq<u8> {
    seq![f.id, f.data_len, f.flags, f.checksum] + f.data
}

/// What `from_bytes` reads: nothing from fewer than twelve bytes; else the frame, with
/// the ID masked to 6 bits and the length capped at eight.
pub open spec fn spec_lin_parse(b: Seq<u8>) -> Option<LinFrameView> {
    if b.len() < 12 {
        None
    } else {
        Some(
            LinFrameView {
                id: b[0] & MAX_LIN_ID,
                data: b.subrange(4, 12),
                data_len: if b[1] < 8 { b[1] } else { 8 },
                flags: b[2],
                checksum: b[3],
            },
        )
    }
}

/// Writing a frame with an ID of at most 63, eight data bytes and a length of at most
/// eight, and reading it back, gives the same frame.
pub proof fn lemma_lin_bytes_then_parse(f: LinFrameView)
    requires
        f.id <= MAX_LIN_ID,
        f.data.len() == 8,
        f.data_len <= 8,
    ensures
        spec_lin_parse(spec_lin_bytes(f)) == Some(f),
{
    let b = spec_lin_bytes(f);
    let id = f.id;
    assert(id <= 63 ==> id & 63 == id) by (bit_vector);
    assert(b.subrange(4, 12) =~= f.data);
}

/// Reading twelve or more bytes whose ID is at most 63 and whose length is at most eight,
/// and writing the frame back, gives the first twelve bytes.
pub proof fn lemma_lin_parse_then_bytes(b: Seq<u8>)
    requires
        b.len() >= 12,
        b[0] <= MAX_LIN_ID,
        b[1] <= 8,
    ensures
        spec_lin_bytes(spec_lin_parse(b).unwrap()) == b.subrange(0, 12),
{
    let id = b[0];
    assert(id <= 63 ==> id & 63 == id) by (bit_vector);
    assert(spec_lin_bytes(spec_lin_parse(b).unwrap()) =~= b.subrange(0, 12));
}

impl LinFrame {
    /// Create a new LIN frame: the ID is masked to 6 bits, the data clipped to 8 bytes.
    pub fn new(id: u8, data: &[u8]) -> (r: Self)
        ensures
            r@ == spec_new_lin(id, data@),
    {
        let len: usize = if data.len() < MAX_LIN_DATA_LEN { data.len() } else { MAX_LIN_DATA_LEN };
        let b0 = if 0 < len { data[0] } else { 0 };
        let b1 = if 1 < len { data[1] } else { 0 };
        let b2 = if 2 < len { data[2] } else { 0 };
        let b3 = if 3 < len { data[3] } else { 0 };
        let b4 = if 4 < len { data[4] } else { 0 };
        let b5 = if 5 < len { data[5] } else { 0 };
        let b6 = if 6 < len { data[6] } else { 0 };
        let b7 = if 7 < len { data[7] } else { 0 };
        let frame_data: [u8; 8] = [b0, b1, b2, b3, b4, b5, b6, b7];
        let r = Self {
            id: id & MAX_LIN_ID,
            data: frame_data,
            data_len: len as u8,
            flags: LinFlags(0),
            checksum: 0,
        };
        assert(r@.data =~= spec_lin_data(data@));
        r
    }

    /// Create a LIN frame with its classic checksum computed.
    pub fn with_classic_checksum(id: u8, data: &[u8]) -> (r: Self)
        ensures
            r@ == (LinFrameView {
                checksum: spec_lin_checksum(spec_lin_payload(spec_new_lin(id, data@)), 0),
                ..spec_new_lin(id, data@)
            }),
    {
        let mut frame = Self::new(id, data);
        frame.checksum = frame.calculate_classic_checksum();
        frame
    }

    /// Create a LIN frame with its enhanced checksum computed and the enhanced flag set.
    pub fn with_enhanced_checksum(id: u8, data: &[u8]) -> (r: Self)
        ensures
            r@ == (LinFrameView {
                checksum: spec_lin_checksum(
                    spec_lin_payload(spec_new_lin(id, data@)),
                    spec_protected_id(id & MAX_LIN_ID),
                ),
                flags: LinFlags::ENHANCED_CHECKSUM,
                ..spec_new_lin(id, data@)
            }),
    {
        let mut frame = Self::new(id, data);
        frame.checksum = frame.calculate_enhanced_checksum();
        frame.flags = frame.flags.with_enhanced_checksum(true);
        assert(0u8 | 0x80u8 == 0x80u8) by (bit_vector);
        frame
    }

    /// The sum with carry of the data bytes, seeded with `init`.
    fn carry_sum_data(&self, init: u8) -> (r: u8)
        requires
            self.data_len <= 8,
        ensures
            r == spec_lin_checksum(spec_lin_payload(self@), init),
    {
        let mut sum: u16 = init as u16;
        let n = self.data_len as usize;
        let mut i: usize = 0;
        while i < n
            invariant
                n == self.data_len,
                n <= 8,
                i <= n,
                sum <= 255,
                sum == carry_sum(self.data@.subrange(0, i as int), init as int),
            decreases n - i,
        {
            let ghost prev = sum;
            assert(self.data@.subrange(0, i + 1).drop_last() =~= self.data@.subrange(0, i as int));
            sum = sum + self.data[i] as u16;
            if sum > 0xFF {
                let s = sum;
                assert(256 <= s <= 510 ==> (s & 0xFF) + 1 == s - 255) by (bit_vector);
                sum = (sum & 0xFF) + 1;
            }
            i = i + 1;
        }
        let s = sum;
        assert(s <= 255 ==> (!s) as u8 == (255 - s) as u8) by (bit_vector);
        !sum as u8
    }

    /// Calculate the classic checksum (LIN 1.x): over the data bytes only.
    pub fn calculate_classic_checksum(&self) -> (r: u8)
        requires
            self.data_len <= 8,
        ensures
            r == spec_lin_checksum(spec_lin_payload(self@), 0),
    {
        self.carry_sum_data(0)
    }

    /// Calculate the enhanced checksum (LIN 2.x): over the protected ID and the data.
    pub fn calculate_enhanced_checksum(&self) -> (r: u8)
        requires
            self.data_len <= 8,
        ensures
            r == spec_lin_checksum(spec_lin_payload(self@), spec_protected_id(self.id)),
    {
        let pid = self.protected_id();
        self.carry_sum_data(pid)
    }

    /// Calculate the protected ID (ID with parity bits).
    pub fn protected_id(&self) -> (r: u8)
        ensures
            r == spec_protected_id(self.id),
            r & 0x3F == self.id & 0x3F,
    {
        proof {
            lemma_protected_id_keeps_id(self.id);
        }
        let id = self.id & 0x3F;
        let p0 = (id ^ (id >> 1u8) ^ (id >> 2u8) ^ (id >> 4u8)) & 0x01;
        let p1 = !((id >> 1u8) ^ (id >> 3u8) ^ (id >> 4u8) ^ (id >> 5u8)) & 0x01;
        id | (p0 << 6u8) | (p1 << 7u8)
    }

    /// Set frame direction to transmit.
    pub fn with_tx(self) -> (r: Self)
        ensures
            r@ == (LinFrameView { flags: self.flags.bits() | LinFlags::TX, ..self@ }),
    {
        let mut s = self;
        s.flags = s.flags.with_tx(true);
        s
    }

    /// Set frame direction to receive.
    pub fn with_rx(self) -> (r: Self)
        ensures
            r@ == (LinFrameView { flags: self.flags.bits() & !LinFlags::TX, ..self@ }),
    {
        let mut s = self;
        s.flags = s.flags.with_tx(false);
        s
    }

    /// Serialize the frame to bytes for ASAM MDF4 LIN_Frame format.
    pub fn to_bytes(&self) -> (r: Vec<u8>)
        ensures
            r@ == spec_lin_bytes(self@),
    {
        let mut bytes: Vec<u8> = Vec::new();
        bytes.push(self.id);
        bytes.push(self.data_len);
        bytes.push(self.flags.to_byte());
        bytes.push(self.checksum);
        push_slice(&mut bytes, self.data.as_slice());
        assert(bytes@ =~= spec_lin_bytes(self@));
        bytes
    }

    /// Parse a frame from ASAM MDF4 LIN_Frame format bytes.
    pub fn from_bytes(bytes: &[u8]) -> (r: Option<Self>)
        ensures
            r is None <==> spec_lin_parse(bytes@) is None,
            r matches Some(f) ==> spec_lin_parse(bytes@) == Some(f@),
    {
        if bytes.len() < 12 {
            return None;
        }
        let data: [u8; 8] = [
            bytes[4],
            bytes[5],
            bytes[6],
            bytes[7],
            bytes[8],
            bytes[9],
            bytes[10],
            bytes[11],
        ];
        let f = Self {
            id: bytes[0] & MAX_LIN_ID,
            data_len: if bytes[1] < 8 { bytes[1] } else { 8 },
            flags: LinFlags(bytes[2]),
            checksum: bytes[3],
            data,
        };
        assert(f@.data =~= bytes@.subrange(4, 12));
        Some(f)
    }

    /// Get the data slice (only valid bytes).
    pub fn data(&self) -> (r: &[u8])
        requires
            self.data_len <= 8,
        ensures
            r@ == spec_lin_payload(self@),
    {
        slice_subrange(self.data.as_slice(), 0, self.data_len as usize)
    }
}

impl Default for LinFrame {
    fn default() -> (r: Self)
        ensures
            r@ == spec_new_lin(0, Seq::empty()),
    {
        let r = Self {
            id: 0,
            data: [0u8, 0u8, 0u8, 0u8, 0u8, 0u8, 0u8, 0u8],
            data_len: 0,
            flags: LinFlags(0),
            checksum: 0,
        };
        assert(r@.data =~= spec_lin_data(Seq::empty()));
        assert(0u8 & 63u8 == 0u8) by (bit_vector);
        r
    }
}

} // verus!

//! Raw CAN frames as the ASAM bus-logging format stores them: the frame types that
//! decide a frame's channel group, and the `CAN_DataFrame` bytes of a frame.

use vstd::prelude::*;
use vstd::utf8::encode_utf8;
use crate::bytes::{copy_range, fit_to, le32, push_le32, push_slice, spec_fit};
use super::fd::{FdFlags, MAX_FD_DATA_LEN};

verus! {

/// Frame type classification for ASAM channel grouping.
#[derive(Debug, Clone, Copy, PartialEq, Eq, Structural)]
pub enum FrameType {
    /// Classic CAN with 11-bit standard ID
    Classic,
    /// Classic CAN with 29-bit extended ID
    ClassicExtended,
    /// CAN FD with 11-bit standard ID, at most 8 data bytes
    FdSmall,
    /// CAN FD with 29-bit extended ID, at most 8 data bytes
    FdSmallExtended,
    /// CAN FD with 11-bit standard ID, more than 8 data bytes
    FdLarge,
    /// CAN FD with 29-bit extended ID, more than 8 data bytes
    FdLargeExtended,
}

/// The frame types in the order their channel groups come in a file.
pub open spec fn all_frame_types() -> Seq<FrameType> {
    seq![
        FrameType::Classic,
        FrameType::ClassicExtended,
        FrameType::FdSmall,
        FrameType::FdSmallExtended,
        FrameType::FdLarge,
        FrameType::FdLargeExtended,
    ]
}

/// The bytes of `_DataFrame`.
pub open spec fn data_frame_suffix() -> Seq<u8> {
    seq![0x5Fu8, 0x44, 0x61, 0x74, 0x61, 0x46, 0x72, 0x61, 0x6D, 0x65]
}

/// The bytes of `_FD`.
pub open spec fn fd_suffix() -> Seq<u8> {
    seq![0x5Fu8, 0x46, 0x44]
}

/// The bytes of `_IDE`.
pub open spec fn ide_suffix() -> Seq<u8> {
    seq![0x5Fu8, 0x49, 0x44, 0x45]
}

/// The bytes of `_DLC_over_8`.
pub open spec fn dlc_over_8_suffix() -> Seq<u8> {
    seq![0x5Fu8, 0x44, 0x4C, 0x43, 0x5F, 0x6F, 0x76, 0x65, 0x72, 0x5F, 0x38]
}

/// The bytes of `CAN_DataFrame`, the name of the data channel.
pub open spec fn can_dataframe_name() -> Seq<u8> {
    seq![0x43u8, 0x41, 0x4E] + data_frame_suffix()
}

impl FrameType {
    /// The frame type of a frame.
    pub open spec fn spec_from_frame(is_extended: bool, is_fd: bool, data_len: int) -> FrameType {
        if !is_fd {
            if is_extended { FrameType::ClassicExtended } else { FrameType::Classic }
        } else if data_len <= 8 {
            if is_extended { FrameType::FdSmallExtended } else { FrameType::FdSmall }
        } else {
            if is_extended { FrameType::FdLargeExtended } else { FrameType::FdLarge }
        }
    }

    /// Whether frames of this type are CAN FD frames.
    pub open spec fn spec_is_fd(self) -> bool {
        !(self is Classic || self is ClassicExtended)
    }

    /// Whether frames of this type have 29-bit identifiers.
    pub open spec fn spec_is_extended(self) -> bool {
        self is ClassicExtended || self is FdSmallExtended || self is FdLargeExtended
    }

    /// Whether frames of this type carry more than 8 data bytes (and their FD flags).
    pub open spec fn spec_is_large(self) -> bool {
        self is FdLarge || self is FdLargeExtended
    }

    /// The most data bytes a frame of this type stores.
    pub open spec fn spec_max_data_len(self) -> int {
        if self.spec_is_large() { 64 } else { 8 }
    }

    /// The size of the `CAN_DataFrame` bytes: ID, DLC, FD flags for large frames, data.
    pub open spec fn spec_frame_size(self) -> int {
        if self.spec_is_large() { 70 } else { 13 }
    }

    /// The position of this type among all frame types.
    pub open spec fn spec_index(self) -> int {
        match self {
            FrameType::Classic => 0,
            FrameType::ClassicExtended => 1,
            FrameType::FdSmall => 2,
            FrameType::FdSmallExtended => 3,
            FrameType::FdLarge => 4,
            FrameType::FdLargeExtended => 5,
        }
    }

    /// The suffix of the group name: `_DataFrame`, then `_FD` for FD frames, `_IDE` for
    /// extended identifiers and `_DLC_over_8` for large frames.
    pub open spec fn spec_suffix(self) -> Seq<u8> {
        data_frame_suffix() + (if self.spec_is_fd() { fd_suffix() } else { Seq::empty() }) + (
        if self.spec_is_extended() {
            ide_suffix()
        } else {
            Seq::empty()
        }) + (if self.spec_is_large() { dlc_over_8_suffix() } else { Seq::empty() })
    }

    /// Classify a frame.
    pub fn from_frame(is_extended: bool, is_fd: bool, data_len: usize) -> (r: FrameType)
        ensures
            r == FrameType::spec_from_frame(is_extended, is_fd, data_len as int),
    {
        if !is_fd {
            if is_extended { FrameType::ClassicExtended } else { FrameType::Classic }
        } else if data_len <= 8 {
            if is_extended { FrameType::FdSmallExtended } else { FrameType::FdSmall }
        } else {
            if is_extended { FrameType::FdLargeExtended } else { FrameType::FdLarge }
        }
    }

    /// The most data bytes a frame of this type stores.
    pub fn max_data_len(&self) -> (r: usize)
        ensures
            r == self.spec_max_data_len(),
    {
        match self {
            FrameType::FdLarge | FrameType::FdLargeExtended => 64,
            _ => 8,
        }
    }

    /// The size of the `CAN_DataFrame` bytes of this type.
    pub fn frame_size(&self) -> (r: usize)
        ensures
            r == self.spec_frame_size(),
    {
        match self {
            FrameType::FdLarge | FrameType::FdLargeExtended => 70,
            _ => 13,
        }
    }

    /// The position of this type among all frame types.
    pub fn index(&self) -> (r: usize)
        ensures
            r == self.spec_index(),
    {
        match self {
            FrameType::Classic => 0,
            FrameType::ClassicExtended => 1,
            FrameType::FdSmall => 2,
            FrameType::FdSmallExtended => 3,
            FrameType::FdLarge => 4,
            FrameType::FdLargeExtended => 5,
        }
    }

    /// The frame type at a position.
    pub fn at(i: usize) -> (r: FrameType)
        requires
            i < 6,
        ensures
            r == all_frame_types()[i as int],
    {
        match i {
            0 => FrameType::Classic,
            1 => FrameType::ClassicExtended,
            2 => FrameType::FdSmall,
            3 => FrameType::FdSmallExtended,
            4 => FrameType::FdLarge,
            _ => FrameType::FdLargeExtended,
        }
    }

    /// The channel group name for this type on `bus_name`, as UTF-8 bytes.
    pub fn group_name(&self, bus_name: &str) -> (r: Vec<u8>)
        ensures
            r@ == encode_utf8(bus_name@) + self.spec_suffix(),
    {
        let df: [u8; 10] = [0x5F, 0x44, 0x61, 0x74, 0x61, 0x46, 0x72, 0x61, 0x6D, 0x65];
        let fd: [u8; 3] = [0x5F, 0x46, 0x44];
        let ide: [u8; 4] = [0x5F, 0x49, 0x44, 0x45];
        let large: [u8; 11] = [0x5F, 0x44, 0x4C, 0x43, 0x5F, 0x6F, 0x76, 0x65, 0x72, 0x5F, 0x38];
        assert(df@ =~= data_frame_suffix());
        assert(fd@ =~= fd_suffix());
        assert(ide@ =~= ide_suffix());
        assert(large@ =~= dlc_over_8_suffix());
        let mut r: Vec<u8> = Vec::new();
        push_slice(&mut r, bus_name.as_bytes());
        push_slice(&mut r, &df);
        let ghost a = r@;
        let is_fd = !matches!(self, FrameType::Classic | FrameType::ClassicExtended);
        let is_ext = matches!(self, FrameType::ClassicExtended | FrameType::FdSmallExtended | FrameType::FdLargeExtended);
        let is_large = matches!(self, FrameType::FdLarge | FrameType::FdLargeExtended);
        if is_fd {
            push_slice(&mut r, &fd);
        }
        let ghost b = r@;
        assert(b =~= a + (if self.spec_is_fd() { fd_suffix() } else { Seq::empty() }));
        if is_ext {
            push_slice(&mut r, &ide);
        }
        let ghost c = r@;
        assert(c =~= b + (if self.spec_is_extended() { ide_suffix() } else { Seq::empty() }));
        if is_large {
            push_slice(&mut r, &large);
        }
        assert(r@ =~= c + (if self.spec_is_large() { dlc_over_8_suffix() } else { Seq::empty() }));
        assert(r@ =~= encode_utf8(bus_name@) + self.spec_suffix());
        r
    }

    /// The name of the data channel, `CAN_DataFrame`, as bytes.
    pub fn channel_name(&self) -> (r: Vec<u8>)
        ensures
            r@ == can_dataframe_name(),
    {
        let n: [u8; 13] = [0x43, 0x41, 0x4E, 0x5F, 0x44, 0x61, 0x74, 0x61, 0x46, 0x72, 0x61, 0x6D, 0x65];
        let mut r: Vec<u8> = Vec::new();
        push_slice(&mut r, &n);
        assert(r@ =~= can_dataframe_name());
        r
    }
}

/// A buffered raw CAN frame.
#[derive(Debug, Clone)]
pub struct RawFrame {
    /// Timestamp in microseconds.
    pub timestamp_us: u64,
    /// CAN ID (11 or 29 bits).
    pub can_id: u32,
    /// Data Length Code.
    pub dlc: u8,
    /// Frame data (at most 8 bytes for classic frames, 64 for FD frames).
    pub data: Vec<u8>,
    /// CAN FD flags (BRS, ESI).
    pub fd_flags: FdFlags,
    /// True if this frame uses a 29-bit extended ID.
    pub is_extended: bool,
    /// True if this is a CAN FD frame.
    pub is_fd: bool,
}

/// What a raw frame holds, with its data as a sequence.
pub struct RawFrameView {
    pub timestamp_us: u64,
    pub can_id: u32,
    pub dlc: u8,
    pub data: Seq<u8>,
    pub fd_flags: FdFlags,
    pub is_extended: bool,
    pub is_fd: bool,
}

impl View for RawFrame {
    type V = RawFrameView;

    open spec fn view(&self) -> RawFrameView {
        RawFrameView {
            timestamp_us: self.timestamp_us,
            can_id: self.can_id,
            dlc: self.dlc,
            data: self.data@,
            fd_flags: self.fd_flags,
            is_extended: self.is_extended,
            is_fd: self.is_fd,
        }
    }
}

/// The first `n` bytes of `s`, or all of them if it is shorter.
pub open spec fn spec_prefix(s: Seq<u8>, n: int) -> Seq<u8> {
    if s.len() <= n { s } else { s.take(n) }
}

impl RawFrame {
    /// The frame type this frame is grouped under.
    pub open spec fn spec_frame_type(self) -> FrameType {
        FrameType::spec_from_frame(self.is_extended, self.is_fd, self.data@.len() as int)
    }

    /// The identifier as stored: bit 31 marks an extended identifier.
    pub open spec fn spec_stored_id(self) -> u32 {
        if self.is_extended { self.can_id | 0x8000_0000 } else { self.can_id }
    }

    /// The `CAN_DataFrame` bytes: the stored identifier (little-endian), the DLC, for
    /// large FD frames the FD flags byte, then the data, zero-padded (or cut) to the size
    /// of the frame type.
    pub open spec fn spec_dataframe_bytes(self) -> Seq<u8> {
        let t = self.spec_frame_type();
        spec_fit(
            le32(self.spec_stored_id()) + seq![self.dlc] + (if t.spec_is_large() {
                seq![self.fd_flags.spec_to_byte()]
            } else {
                Seq::empty()
            }) + self.data@,
            t.spec_frame_size(),
        )
    }

    /// A classic CAN frame; at most 8 data bytes are kept.
    pub fn new_classic(timestamp_us: u64, can_id: u32, dlc: u8, data: &[u8], is_extended: bool) -> (r: RawFrame)
        ensures
            r.timestamp_us == timestamp_us,
            r.can_id == can_id,
            r.dlc == dlc,
            r.data@ == spec_prefix(data@, 8),
            r.fd_flags == FdFlags::spec_from_byte(0),
            r.is_extended == is_extended,
            !r.is_fd,
    {
        let len = if data.len() < 8 { data.len() } else { 8 };
        let d = copy_range(data, 0, len);
        assert(data@.subrange(0, len as int) =~= spec_prefix(data@, 8));
        let flags = FdFlags::from_byte(0);
        RawFrame { timestamp_us, can_id, dlc, data: d, fd_flags: flags, is_extended, is_fd: false }
    }

    /// A CAN FD frame; at most 64 data bytes are kept.
    pub fn new_fd(timestamp_us: u64, can_id: u32, dlc: u8, data: &[u8], flags: FdFlags, is_extended: bool) -> (r: RawFrame)
        ensures
            r.timestamp_us == timestamp_us,
            r.can_id == can_id,
            r.dlc == dlc,
            r.data@ == spec_prefix(data@, MAX_FD_DATA_LEN as int),
            r.fd_flags == flags,
            r.is_extended == is_extended,
            r.is_fd,
    {
        let len = if data.len() < MAX_FD_DATA_LEN { data.len() } else { MAX_FD_DATA_LEN };
        let d = copy_range(data, 0, len);
        assert(data@.subrange(0, len as int) =~= spec_prefix(data@, MAX_FD_DATA_LEN as int));
        RawFrame { timestamp_us, can_id, dlc, data: d, fd_flags: flags, is_extended, is_fd: true }
    }

    /// The frame type this frame is grouped under.
    pub fn frame_type(&self) -> (r: FrameType)
        ensures
            r == self.spec_frame_type(),
    {
        FrameType::from_frame(self.is_extended, self.is_fd, self.data.len())
    }

    /// Build the `CAN_DataFrame` bytes in ASAM format.
    pub fn to_dataframe_bytes(&self) -> (r: Vec<u8>)
        ensures
            r@ == self.spec_dataframe_bytes(),
            r@.len() == self.spec_frame_type().spec_frame_size(),
    {
        let t = self.frame_type();
        let id: u32 = if self.is_extended { self.can_id | 0x8000_0000 } else { self.can_id };
        let mut b: Vec<u8> = Vec::new();
        push_le32(&mut b, id);
        b.push(self.dlc);
        let ghost head = b@;
        let large = matches!(t, FrameType::FdLarge | FrameType::FdLargeExtended);
        if large {
            b.push(self.fd_flags.to_byte());
        }
        assert(b@ =~= head + (if t.spec_is_large() {
            seq![self.fd_flags.spec_to_byte()]
        } else {
            Seq::empty()
        }));
        push_slice(&mut b, self.data.as_slice());
        assert(b@ =~= le32(self.spec_stored_id()) + seq![self.dlc] + (if t.spec_is_large() {
            seq![self.fd_flags.spec_to_byte()]
        } else {
            Seq::empty()
        }) + self.data@);
        fit_to(b, t.frame_size())
    }
}

} // verus!

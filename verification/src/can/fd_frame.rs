//! CAN FD frames: CAN identifiers, the frame interface a logger takes, and a simple
//! frame type.

use vstd::prelude::*;
use crate::bytes::{copy_range, push_zeros};
use super::fd::{dlc_to_len, len_to_dlc, spec_dlc_to_len, spec_len_to_dlc, FdFlags, MAX_FD_DATA_LEN};

verus! {

/// A CAN identifier of the `embedded-can` crate, standard or extended.
#[verifier::external_type_specification]
#[verifier::external_body]
pub struct ExCanId(embedded_can::Id);

/// Whether an identifier is extended (29-bit), and its raw value
/// (`embedded_can::Id`, `StandardId::as_raw`, `ExtendedId::as_raw`). The identifier is
/// opaque here, so which variant it is goes unstated; the crate documents the ranges
/// of the raw values, 0 to 0x7FF for standard and 0 to 0x1FFF_FFFF for extended ones.
#[verifier::external_body]
pub(crate) fn split_id(id: &embedded_can::Id) -> (r: (bool, u32))
    ensures
        !r.0 ==> r.1 <= 0x7FF,
        r.0 ==> r.1 <= 0x1FFF_FFFF,
{
    match id {
        embedded_can::Id::Standard(s) => (false, s.as_raw() as u32),
        embedded_can::Id::Extended(e) => (true, e.as_raw()),
    }
}

/// A CAN identifier: standard (11-bit, raw value at most 0x7FF) or extended (29-bit,
/// raw value at most 0x1FFF_FFFF).
#[derive(Debug, Clone, Copy, PartialEq, Eq)]
pub struct CanId {
    extended: bool,
    raw: u32,
}

impl CanId {
    /// The raw value fits the identifier's kind.
    #[verifier::type_invariant]
    closed spec fn in_range(self) -> bool {
        if self.extended { self.raw <= 0x1FFF_FFFF } else { self.raw <= 0x7FF }
    }

    /// Whether the identifier is extended (29-bit).
    pub closed spec fn spec_extended(self) -> bool {
        self.extended
    }

    /// The identifier's raw value.
    pub closed spec fn spec_raw(self) -> u32 {
        self.raw
    }

    /// A standard identifier; `None` when `raw` is above 0x7FF.
    pub fn standard(raw: u16) -> (r: Option<CanId>)
        ensures
            r is Some <==> raw <= 0x7FF,
            r matches Some(id) ==> !id.spec_extended() && id.spec_raw() == raw,
    {
        if raw <= 0x7FF {
            Some(CanId { extended: false, raw: raw as u32 })
        } else {
            None
        }
    }

    /// An extended identifier; `None` when `raw` is above 0x1FFF_FFFF.
    pub fn extended(raw: u32) -> (r: Option<CanId>)
        ensures
            r is Some <==> raw <= 0x1FFF_FFFF,
            r matches Some(id) ==> id.spec_extended() && id.spec_raw() == raw,
    {
        if raw <= 0x1FFF_FFFF {
            Some(CanId { extended: true, raw })
        } else {
            None
        }
    }

    /// The identifier an `embedded-can` identifier stands for: its kind and raw value.
    pub fn from_id(id: embedded_can::Id) -> (r: CanId) {
        let (extended, raw) = split_id(&id);
        CanId { extended, raw }
    }

    /// Whether the identifier is extended (29-bit).
    pub fn is_extended(&self) -> (r: bool)
        ensures
            r == self.spec_extended(),
    {
        self.extended
    }

    /// The identifier's raw value: at most 0x7FF for a standard identifier, at most
    /// 0x1FFF_FFFF for an extended one.
    pub fn raw(&self) -> (r: u32)
        ensures
            r == self.spec_raw(),
            if self.spec_extended() { r <= 0x1FFF_FFFF } else { r <= 0x7FF },
    {
        proof {
            use_type_invariant(self);
        }
        self.raw
    }
}

/// The data length a frame's DLC stands for: for a CAN FD frame, what the DLC (taken
/// as a byte) stands for; for a classic frame, the DLC capped at 8.
pub open spec fn spec_frame_data_len(is_fd: bool, dlc: usize) -> usize {
    if is_fd {
        spec_dlc_to_len(dlc as u8)
    } else if dlc < 8 {
        dlc
    } else {
        8
    }
}

/// A frame a CAN FD logger can take, implemented by users for their frame types.
pub trait FdFrame: Sized {
    /// Whether the frame is a CAN FD frame.
    spec fn spec_frame_is_fd(&self) -> bool;

    /// The frame's FD flags.
    spec fn spec_frame_flags(&self) -> FdFlags;

    /// The frame's identifier.
    spec fn spec_frame_id(&self) -> CanId;

    /// The frame's data length code.
    spec fn spec_frame_dlc(&self) -> usize;

    /// The frame's data bytes.
    spec fn spec_frame_data(&self) -> Seq<u8>;

    /// A CAN FD frame with the given data and flags; `None` if the data is too long
    /// (more than 64 bytes).
    fn new_fd(id: CanId, data: &[u8], flags: FdFlags) -> (r: Option<Self>)
        ensures
            r is None <==> data@.len() > MAX_FD_DATA_LEN,
            r matches Some(f) ==> f.spec_frame_id() == id && f.spec_frame_data() == data@ && f.spec_frame_is_fd()
                && f.spec_frame_flags() == flags,
    ;

    /// Whether this is a CAN FD frame (rather than classic CAN).
    fn is_fd(&self) -> (r: bool)
        ensures
            r == self.spec_frame_is_fd(),
    ;

    /// The CAN FD flags (BRS, ESI).
    fn fd_flags(&self) -> (r: FdFlags)
        ensures
            r == self.spec_frame_flags(),
    ;

    /// The frame identifier.
    fn id(&self) -> (r: CanId)
        ensures
            r == self.spec_frame_id(),
    ;

    /// The data length code.
    fn dlc(&self) -> (r: usize)
        ensures
            r == self.spec_frame_dlc(),
    ;

    /// The frame data.
    fn data(&self) -> (r: &[u8])
        ensures
            r@ == self.spec_frame_data(),
    ;

    /// The data length the DLC stands for: CAN FD codes map to up to 64 bytes, classic
    /// codes are capped at 8.
    fn data_len(&self) -> (r: usize)
        ensures
            r == spec_frame_data_len(self.spec_frame_is_fd(), self.spec_frame_dlc()),
    {
        let dlc = self.dlc();
        if self.is_fd() {
            if dlc <= 255 { dlc_to_len(dlc as u8) } else { dlc_to_len(#[verifier::truncate] (dlc as u8)) }
        } else {
            if dlc < 8 { dlc } else { 8 }
        }
    }

    /// Whether the identifier is extended (29-bit).
    fn is_extended(&self) -> (r: bool)
        ensures
            r == self.spec_frame_id().spec_extended(),
    {
        self.id().is_extended()
    }

    /// Whether the identifier is standard (11-bit).
    fn is_standard(&self) -> (r: bool)
        ensures
            r == !self.spec_frame_id().spec_extended(),
    {
        !self.is_extended()
    }
}

/// A simple CAN FD frame.
#[derive(Debug, Clone)]
pub struct SimpleFdFrame {
    id: CanId,
    data: Vec<u8>,
    flags: FdFlags,
    is_fd: bool,
}

impl SimpleFdFrame {
    /// The frame's data bytes.
    pub closed spec fn spec_data(&self) -> Seq<u8> {
        self.data@
    }

    /// Whether the frame is a CAN FD frame.
    pub closed spec fn spec_is_fd(&self) -> bool {
        self.is_fd
    }

    /// The frame's FD flags.
    pub closed spec fn spec_flags(&self) -> FdFlags {
        self.flags
    }

    /// The frame's identifier.
    pub closed spec fn spec_id(&self) -> CanId {
        self.id
    }

    /// A classic CAN frame of up to 8 bytes; `None` for more.
    pub fn new_classic(id: CanId, data: &[u8]) -> (r: Option<Self>)
        ensures
            r is None <==> data@.len() > 8,
            r matches Some(f) ==> f.spec_data() == data@ && !f.spec_is_fd() && f.spec_flags() == FdFlags::spec_from_byte(0) && f.spec_id() == id,
    {
        if data.len() > 8 {
            return None;
        }
        let d = copy_range(data, 0, data.len());
        assert(data@.subrange(0, data@.len() as int) =~= data@);
        Some(Self { id, data: d, flags: FdFlags::from_byte(0), is_fd: false })
    }

    /// A CAN FD frame of up to 64 bytes; `None` for more.
    pub fn new_fd_frame(id: CanId, data: &[u8], flags: FdFlags) -> (r: Option<Self>)
        ensures
            r is None <==> data@.len() > MAX_FD_DATA_LEN,
            r matches Some(f) ==> f.spec_data() == data@ && f.spec_is_fd() && f.spec_flags() == flags && f.spec_id() == id,
    {
        if data.len() > MAX_FD_DATA_LEN {
            return None;
        }
        let d = copy_range(data, 0, data.len());
        assert(data@.subrange(0, data@.len() as int) =~= data@);
        Some(Self { id, data: d, flags, is_fd: true })
    }

    /// A remote classic frame: `dlc` zero bytes, at most 8; `None` for more.
    pub fn new_remote(id: CanId, dlc: usize) -> (r: Option<Self>)
        ensures
            r is None <==> dlc > 8,
            r matches Some(f) ==> f.spec_data() == Seq::new(dlc as nat, |i: int| 0u8) && !f.spec_is_fd()
                && f.spec_flags() == FdFlags::spec_from_byte(0) && f.spec_id() == id,
    {
        if dlc > 8 {
            return None;
        }
        let mut d: Vec<u8> = Vec::new();
        push_zeros(&mut d, dlc);
        assert(d@ =~= Seq::new(dlc as nat, |i: int| 0u8));
        Some(Self { id, data: d, flags: FdFlags::from_byte(0), is_fd: false })
    }

    /// The frame identifier.
    pub fn id(&self) -> (r: CanId)
        ensures
            r == self.spec_id(),
    {
        self.id
    }

    /// Whether the frame is a CAN FD frame.
    pub fn is_fd(&self) -> (r: bool)
        ensures
            r == self.spec_is_fd(),
    {
        self.is_fd
    }

    /// The frame's FD flags.
    pub fn fd_flags(&self) -> (r: FdFlags)
        ensures
            r == self.spec_flags(),
    {
        self.flags
    }

    /// The CAN FD data length code of the data.
    pub fn dlc(&self) -> (r: usize)
        ensures
            r == spec_len_to_dlc(self.spec_data().len() as usize),
    {
        len_to_dlc(self.data.len()) as usize
    }

    /// The frame data.
    pub fn data(&self) -> (r: &[u8])
        ensures
            r@ == self.spec_data(),
    {
        self.data.as_slice()
    }

    /// The classic CAN data length code: the data length, at most 8.
    pub fn classic_dlc(&self) -> (r: usize)
        ensures
            r == if self.spec_data().len() < 8 { self.spec_data().len() } else { 8 },
    {
        if self.data.len() < 8 { self.data.len() } else { 8 }
    }

    /// The classic CAN data: at most the first 8 bytes.
    pub fn classic_data(&self) -> (r: Vec<u8>)
        ensures
            r@ == self.spec_data().take(if self.spec_data().len() < 8 { self.spec_data().len() as int } else { 8 }),
    {
        let n = if self.data.len() < 8 { self.data.len() } else { 8 };
        copy_range(self.data.as_slice(), 0, n)
    }

    /// Whether the identifier is extended (29-bit).
    pub fn is_extended(&self) -> (r: bool)
        ensures
            r == self.spec_id().spec_extended(),
    {
        self.id.is_extended()
    }

    /// A CAN FD frame is never a remote frame.
    pub fn is_remote_frame(&self) -> (r: bool)
        ensures
            !r,
    {
        false
    }
}

impl FdFrame for SimpleFdFrame {
    closed spec fn spec_frame_is_fd(&self) -> bool {
        self.is_fd
    }

    closed spec fn spec_frame_flags(&self) -> FdFlags {
        self.flags
    }

    closed spec fn spec_frame_id(&self) -> CanId {
        self.id
    }

    closed spec fn spec_frame_dlc(&self) -> usize {
        spec_len_to_dlc(self.data@.len() as usize) as usize
    }

    closed spec fn spec_frame_data(&self) -> Seq<u8> {
        self.data@
    }

    fn new_fd(id: CanId, data: &[u8], flags: FdFlags) -> (r: Option<Self>) {
        Self::new_fd_frame(id, data, flags)
    }

    fn is_fd(&self) -> (r: bool) {
        self.is_fd
    }

    fn fd_flags(&self) -> (r: FdFlags) {
        self.flags
    }

    fn id(&self) -> (r: CanId) {
        assert(self.spec_frame_id() == self.id);
        self.id
    }

    fn dlc(&self) -> (r: usize) {
        len_to_dlc(self.data.len()) as usize
    }

    fn data(&self) -> (r: &[u8]) {
        self.data.as_slice()
    }
}

} // verus!

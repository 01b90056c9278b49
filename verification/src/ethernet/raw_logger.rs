//! Raw Ethernet frame logger following the ASAM MDF4 bus-logging format.
//!
//! Frames are buffered; the first `flush` creates one channel group per size class
//! logged so far (standard, then jumbo), named `{source_name}_ETH_Frame` and
//! `{source_name}_ETH_Frame_Jumbo`, whose data channel `ETH_Frame` holds for each frame
//! its flags, its length and its bytes. Each flush writes the buffered frames of each
//! group's class as its records and empties the buffer.

use vstd::prelude::*;
use vstd::utf8::encode_utf8;
use crate::bytes::{copy_range, fit_to, le16, le64, push_le16, push_slice, spec_fit};
use crate::error::MdfError;
use crate::writer::{
    all_wf, finalize_groups, spec_log_file, spec_log_len, writer_views, BusLogWriter,
    BusLogWriterView,
};
use super::frame::{
    spec_eth_frame_bytes, EthernetFlags, EthernetFrame, MacAddress, ETH_HEADER_SIZE,
    MAX_ETHERNET_FRAME, MAX_JUMBO_PAYLOAD,
};

verus! {

/// Frame size classification for ASAM channel grouping.
#[derive(Debug, Clone, Copy, PartialEq, Eq, Structural)]
pub enum FrameSize {
    /// Standard Ethernet frame (up to 1514 bytes)
    Standard,
    /// Jumbo frame (more than 1514 bytes)
    Jumbo,
}

/// The bytes of `_ETH_Frame`.
pub open spec fn eth_group_suffix() -> Seq<u8> {
    seq![0x5Fu8, 0x45, 0x54, 0x48, 0x5F, 0x46, 0x72, 0x61, 0x6D, 0x65]
}

/// The bytes of `_Jumbo`.
pub open spec fn jumbo_suffix() -> Seq<u8> {
    seq![0x5Fu8, 0x4A, 0x75, 0x6D, 0x62, 0x6F]
}

/// The bytes of `ETH_Frame`, the name of the data channel.
pub open spec fn eth_channel_name() -> Seq<u8> {
    eth_group_suffix().subrange(1, 10)
}

impl FrameSize {
    /// The size class of a frame of `len` bytes.
    pub open spec fn spec_from_length(len: int) -> FrameSize {
        if len > MAX_ETHERNET_FRAME { FrameSize::Jumbo } else { FrameSize::Standard }
    }

    /// The most frame bytes stored for this size class.
    pub open spec fn spec_max_frame_size(self) -> int {
        match self {
            FrameSize::Standard => MAX_ETHERNET_FRAME as int,
            FrameSize::Jumbo => (ETH_HEADER_SIZE + MAX_JUMBO_PAYLOAD) as int,
        }
    }

    /// The position of this class: standard first.
    pub open spec fn spec_index(self) -> int {
        match self {
            FrameSize::Standard => 0,
            FrameSize::Jumbo => 1,
        }
    }

    /// The suffix of the group name.
    pub open spec fn spec_suffix(self) -> Seq<u8> {
        match self {
            FrameSize::Standard => eth_group_suffix(),
            FrameSize::Jumbo => eth_group_suffix() + jumbo_suffix(),
        }
    }

    /// Classify a frame by its length.
    pub fn from_length(len: usize) -> (r: FrameSize)
        ensures
            r == FrameSize::spec_from_length(len as int),
    {
        if len > MAX_ETHERNET_FRAME { FrameSize::Jumbo } else { FrameSize::Standard }
    }

    /// The most frame bytes stored for this size class.
    pub fn max_frame_size(&self) -> (r: usize)
        ensures
            r == self.spec_max_frame_size(),
    {
        match self {
            FrameSize::Standard => MAX_ETHERNET_FRAME,
            FrameSize::Jumbo => ETH_HEADER_SIZE + MAX_JUMBO_PAYLOAD,
        }
    }

    /// The channel group name for this class on `source_name`, as UTF-8 bytes.
    pub fn group_name(&self, source_name: &str) -> (r: Vec<u8>)
        ensures
            r@ == encode_utf8(source_name@) + self.spec_suffix(),
    {
        let g: [u8; 10] = [0x5F, 0x45, 0x54, 0x48, 0x5F, 0x46, 0x72, 0x61, 0x6D, 0x65];
        let j: [u8; 6] = [0x5F, 0x4A, 0x75, 0x6D, 0x62, 0x6F];
        assert(g@ =~= eth_group_suffix());
        assert(j@ =~= jumbo_suffix());
        let mut r: Vec<u8> = Vec::new();
        push_slice(&mut r, source_name.as_bytes());
        push_slice(&mut r, &g);
        let ghost a = r@;
        if let FrameSize::Jumbo = self {
            push_slice(&mut r, &j);
        }
        assert(r@ =~= encode_utf8(source_name@) + self.spec_suffix());
        r
    }
}

/// A buffered raw Ethernet frame with its timestamp.
#[derive(Debug, Clone)]
pub struct RawEthFrame {
    /// Timestamp in microseconds.
    pub timestamp_us: u64,
    /// Frame data (complete Ethernet frame including header).
    pub data: Vec<u8>,
    /// Frame flags.
    pub flags: EthernetFlags,
}

impl RawEthFrame {
    /// The size class this frame is logged under.
    pub open spec fn spec_frame_size(self) -> FrameSize {
        FrameSize::spec_from_length(self.data@.len() as int)
    }

    /// The `ETH_Frame` bytes for a class of `max_size` frame bytes: the flags byte, the
    /// frame length as a little-endian `u16` (its low 16 bits), then the frame bytes,
    /// zero-padded (or cut) to `3 + max_size` bytes.
    pub open spec fn spec_frame_bytes(self, max_size: int) -> Seq<u8> {
        spec_fit(
            seq![self.flags.bits()] + le16(self.data@.len() as u16) + self.data@,
            3 + max_size,
        )
    }

    /// A frame record.
    pub fn new(timestamp_us: u64, data: Vec<u8>, flags: EthernetFlags) -> (r: Self)
        ensures
            r.timestamp_us == timestamp_us,
            r.data@ == data@,
            r.flags == flags,
    {
        Self { timestamp_us, data, flags }
    }

    /// The size class this frame is logged under.
    pub fn frame_size(&self) -> (r: FrameSize)
        ensures
            r == self.spec_frame_size(),
    {
        FrameSize::from_length(self.data.len())
    }

    /// Build the `ETH_Frame` bytes in ASAM format.
    pub fn to_frame_bytes(&self, max_size: usize) -> (r: Vec<u8>)
        requires
            max_size <= ETH_HEADER_SIZE + MAX_JUMBO_PAYLOAD,
        ensures
            r@ == self.spec_frame_bytes(max_size as int),
            r@.len() == 3 + max_size,
    {
        let mut b: Vec<u8> = Vec::new();
        b.push(self.flags.to_byte());
        let len: u16 = #[verifier::truncate] (self.data.len() as u16);
        push_le16(&mut b, len);
        push_slice(&mut b, self.data.as_slice());
        assert(b@ =~= seq![self.flags.bits()] + le16(self.data@.len() as u16) + self.data@);
        fit_to(b, 3 + max_size)
    }
}

/// The record bytes that buffered frames give the group of class `c`: for each frame of
/// that class, in order, its timestamp then its `ETH_Frame` bytes.
pub open spec fn spec_eth_records(buf: Seq<RawEthFrame>, c: FrameSize) -> Seq<u8>
    decreases buf.len(),
{
    if buf.len() == 0 {
        Seq::empty()
    } else {
        spec_eth_records(buf.drop_last(), c) + if buf.last().spec_frame_size() == c {
            le64(buf.last().timestamp_us) + buf.last().spec_frame_bytes(c.spec_max_frame_size())
        } else {
            Seq::empty()
        }
    }
}

/// The number of buffered frames of class `c`.
pub open spec fn spec_class_count(buf: Seq<RawEthFrame>, c: FrameSize) -> nat {
    buf.filter(|f: RawEthFrame| f.spec_frame_size() == c).len()
}

/// The writer the first flush creates for class `c` on `source`.
pub open spec fn spec_initial_eth_writer(source: Seq<char>, c: FrameSize) -> BusLogWriterView {
    BusLogWriterView {
        group_name: encode_utf8(source) + c.spec_suffix(),
        data_name: eth_channel_name(),
        frame_size: (3 + c.spec_max_frame_size()) as nat,
        records: Seq::empty(),
        count: 0,
    }
}

/// The classes marked in `present`, in order.
pub open spec fn spec_present_classes(present: Seq<bool>) -> Seq<FrameSize> {
    seq![FrameSize::Standard, FrameSize::Jumbo].filter(|c: FrameSize| present[c.spec_index()])
}

/// A group writer after taking the frames of its class from `buf`.
pub open spec fn spec_eth_written(w: BusLogWriterView, buf: Seq<RawEthFrame>, c: FrameSize) -> BusLogWriterView {
    BusLogWriterView {
        records: w.records + spec_eth_records(buf, c),
        count: (w.count + spec_class_count(buf, c)) as u64,
        ..w
    }
}

/// The number of frames of class `c` in `buf`.
fn class_count(buf: &Vec<RawEthFrame>, c: FrameSize) -> (r: usize)
    ensures
        r == spec_class_count(buf@, c),
{
    let ghost p = |f: RawEthFrame| f.spec_frame_size() == c;
    let n = buf.len();
    let mut k: usize = 0;
    let mut i: usize = 0;
    while i < n
        invariant
            n == buf@.len(),
            i <= n,
            k <= i,
            k == buf@.take(i as int).filter(p).len(),
            p == (|f: RawEthFrame| f.spec_frame_size() == c),
        decreases n - i,
    {
        proof {
            assert(buf@.take(i + 1) =~= buf@.take(i as int).push(buf@[i as int]));
            buf@.take(i as int).lemma_filter_len_push(p, buf@[i as int]);
        }
        if buf[i].frame_size() == c {
            k = k + 1;
        }
        i = i + 1;
    }
    assert(buf@.take(n as int) =~= buf@);
    k
}

/// A prefix has no more frames of a class than the whole.
proof fn lemma_class_count_prefix(buf: Seq<RawEthFrame>, c: FrameSize, i: int)
    requires
        0 <= i <= buf.len(),
    ensures
        spec_class_count(buf.take(i), c) <= spec_class_count(buf, c),
    decreases buf.len() - i,
{
    let p = |f: RawEthFrame| f.spec_frame_size() == c;
    if i < buf.len() {
        lemma_class_count_prefix(buf, c, i + 1);
        assert(buf.take(i + 1) =~= buf.take(i).push(buf[i]));
        buf.take(i).lemma_filter_len_push(p, buf[i]);
    } else {
        assert(buf.take(i) =~= buf);
    }
}

/// Appends to `w` the records of the frames of class `c` in `buf`.
fn write_class(w: &mut BusLogWriter, buf: &Vec<RawEthFrame>, c: FrameSize)
    requires
        old(w).wf(),
        old(w)@.frame_size == 3 + c.spec_max_frame_size(),
        old(w)@.count + spec_class_count(buf@, c) <= u64::MAX,
    ensures
        final(w).wf(),
        final(w)@ == spec_eth_written(old(w)@, buf@, c),
{
    let ghost p = |f: RawEthFrame| f.spec_frame_size() == c;
    let ghost w0 = w@;
    let max = c.max_frame_size();
    let n = buf.len();
    let mut i: usize = 0;
    while i < n
        invariant
            n == buf@.len(),
            i <= n,
            max == c.spec_max_frame_size(),
            w.wf(),
            w@ == spec_eth_written(w0, buf@.take(i as int), c),
            w0.frame_size == 3 + c.spec_max_frame_size(),
            w0.count + spec_class_count(buf@, c) <= u64::MAX,
            p == (|f: RawEthFrame| f.spec_frame_size() == c),
        decreases n - i,
    {
        let f = &buf[i];
        proof {
            let s = buf@.take(i + 1);
            assert(s.drop_last() =~= buf@.take(i as int));
            assert(s.last() == buf@[i as int]);
            assert(s =~= buf@.take(i as int).push(buf@[i as int]));
            buf@.take(i as int).lemma_filter_len_push(p, buf@[i as int]);
            lemma_class_count_prefix(buf@, c, i + 1);
        }
        if f.frame_size() == c {
            let bytes = f.to_frame_bytes(max);
            let res = w.write_record(f.timestamp_us, bytes.as_slice());
            assert(w0.records + spec_eth_records(buf@.take(i + 1), c) =~= w0.records
                + spec_eth_records(buf@.take(i as int), c) + le64(f.timestamp_us) + bytes@);
        } else {
            assert(spec_eth_records(buf@.take(i + 1), c) =~= spec_eth_records(buf@.take(i as int), c));
        }
        i = i + 1;
    }
    assert(buf@.take(n as int) =~= buf@);
}

/// Raw Ethernet frame logger using the ASAM MDF4 bus-logging format.
pub struct RawEthernetLogger {
    /// Source name, for the group names.
    pub source_name: String,
    /// Buffered frames, not yet written, in the order they were logged.
    pub buffer: Vec<RawEthFrame>,
    /// For each size class (standard, jumbo), whether a frame of it was logged.
    pub present: Vec<bool>,
    /// The group writers, created by the first flush.
    pub groups: Option<Vec<BusLogWriter>>,
    /// The size class of each group writer.
    pub group_classes: Vec<FrameSize>,
}

impl RawEthernetLogger {
    /// The logger is consistent: one mark per size class, and each group writer holds
    /// records of its class's size.
    pub open spec fn wf(&self) -> bool {
        &&& self.present@.len() == 2
        &&& match self.groups {
            Some(gs) => {
                &&& gs@.len() == self.group_classes@.len()
                &&& all_wf(gs@)
                &&& forall|j: int|
                    0 <= j < gs@.len() ==> (#[trigger] gs@[j])@.frame_size == 3
                        + self.group_classes@[j].spec_max_frame_size()
            },
            None => true,
        }
    }

    /// The views of the group writers, once created.
    pub open spec fn written(&self) -> Option<Seq<BusLogWriterView>> {
        match self.groups {
            Some(gs) => Some(writer_views(gs@)),
            None => None,
        }
    }

    /// The classes a flush writes to.
    pub open spec fn classes_before_flush(&self) -> Seq<FrameSize> {
        match self.groups {
            Some(_) => self.group_classes@,
            None => spec_present_classes(self.present@),
        }
    }

    /// The group writers a flush writes to.
    pub open spec fn writers_before_flush(&self) -> Seq<BusLogWriterView> {
        match self.groups {
            Some(gs) => writer_views(gs@),
            None => spec_present_classes(self.present@).map_values(
                |c: FrameSize| spec_initial_eth_writer(self.source_name@, c),
            ),
        }
    }

    /// The group writers after a flush that succeeds.
    pub open spec fn writers_after_flush(&self) -> Seq<BusLogWriterView> {
        let ws = self.writers_before_flush();
        let cs = self.classes_before_flush();
        Seq::new(ws.len(), |j: int| spec_eth_written(ws[j], self.buffer@, cs[j]))
    }

    /// Whether a flush would overflow some group's record counter.
    pub open spec fn flush_overflows(&self) -> bool {
        exists|j: int|
            0 <= j < self.classes_before_flush().len() && (#[trigger] self.writers_before_flush()[j]).count
                + spec_class_count(self.buffer@, self.classes_before_flush()[j]) > u64::MAX
    }

    /// A logger with nothing logged or written.
    pub open spec fn is_fresh(&self, name: Seq<char>) -> bool {
        &&& self.wf()
        &&& self.source_name@ == name
        &&& self.buffer@.len() == 0
        &&& self.present@ == seq![false, false]
        &&& self.groups is None
    }

    /// The logger after `old` took a frame with these bytes, timestamp and flags.
    pub open spec fn logged(&self, old: &Self, timestamp_us: u64, bytes: Seq<u8>, flags: EthernetFlags) -> bool {
        &&& self.wf()
        &&& self.source_name == old.source_name
        &&& self.written() == old.written()
        &&& self.group_classes == old.group_classes
        &&& self.buffer@.len() == old.buffer@.len() + 1
        &&& self.buffer@.drop_last() == old.buffer@
        &&& self.buffer@.last().timestamp_us == timestamp_us
        &&& self.buffer@.last().data@ == bytes
        &&& self.buffer@.last().flags == flags
        &&& self.present@ == old.present@.update(FrameSize::spec_from_length(bytes.len() as int).spec_index(), true)
    }

    /// Create a new raw Ethernet logger with in-memory output.
    pub fn new() -> (r: Result<Self, MdfError>)
        ensures
            r matches Ok(l) && l.is_fresh("ETH"@),
    {
        Self::with_source_name("ETH")
    }

    /// Create a new raw Ethernet logger with a custom source name.
    pub fn with_source_name(source_name: &str) -> (r: Result<Self, MdfError>)
        ensures
            r matches Ok(l) && l.is_fresh(source_name@),
    {
        let present: Vec<bool> = vec![false, false];
        Ok(Self {
            source_name: source_name.to_owned(),
            buffer: Vec::new(),
            present,
            groups: None,
            group_classes: Vec::new(),
        })
    }

    /// Create a new raw Ethernet logger with a custom interface name.
    pub fn with_interface_name(interface_name: &str) -> (r: Result<Self, MdfError>)
        ensures
            r matches Ok(l) && l.is_fresh(interface_name@),
    {
        Self::with_source_name(interface_name)
    }

    /// Create a new raw Ethernet logger; the capacity is a hint that is not needed here.
    pub fn with_capacity(capacity: usize) -> (r: Result<Self, MdfError>)
        ensures
            r matches Ok(l) && l.is_fresh("ETH"@),
    {
        Self::with_source_name("ETH")
    }

    /// Set the source name used for the group names.
    pub fn set_source_name(&mut self, name: &str)
        ensures
            final(self).source_name@ == name@,
            final(self).buffer == old(self).buffer,
            final(self).present == old(self).present,
            final(self).groups == old(self).groups,
            final(self).group_classes == old(self).group_classes,
    {
        self.source_name = name.to_owned();
    }

    /// Set the interface name used for the group names.
    pub fn set_interface_name(&mut self, name: &str)
        ensures
            final(self).source_name@ == name@,
            final(self).buffer == old(self).buffer,
            final(self).present == old(self).present,
            final(self).groups == old(self).groups,
            final(self).group_classes == old(self).group_classes,
    {
        self.set_source_name(name);
    }

    /// Log a frame with explicit flags. A frame shorter than the Ethernet header (14
    /// bytes) is not logged, and `false` is returned.
    pub fn log_with_flags(&mut self, timestamp_us: u64, frame_bytes: &[u8], flags: EthernetFlags) -> (r: bool)
        requires
            old(self).wf(),
        ensures
            r == (frame_bytes@.len() >= ETH_HEADER_SIZE),
            r ==> final(self).logged(old(self), timestamp_us, frame_bytes@, flags),
            !r ==> *final(self) == *old(self),
    {
        if frame_bytes.len() < ETH_HEADER_SIZE {
            return false;
        }
        let data = copy_range(frame_bytes, 0, frame_bytes.len());
        assert(frame_bytes@.subrange(0, frame_bytes@.len() as int) =~= frame_bytes@);
        let frame = RawEthFrame::new(timestamp_us, data, flags);
        let k: usize = match frame.frame_size() {
            FrameSize::Standard => 0,
            FrameSize::Jumbo => 1,
        };
        assert(k == FrameSize::spec_from_length(frame_bytes@.len() as int).spec_index());
        self.present.set(k, true);
        self.buffer.push(frame);
        assert(self.buffer@.drop_last() =~= old(self).buffer@);
        true
    }

    /// Log a received frame from its bytes (`false` when shorter than the header).
    pub fn log(&mut self, timestamp_us: u64, frame_bytes: &[u8]) -> (r: bool)
        requires
            old(self).wf(),
        ensures
            r == (frame_bytes@.len() >= ETH_HEADER_SIZE),
            r ==> final(self).logged(old(self), timestamp_us, frame_bytes@, final(self).buffer@.last().flags),
            r ==> final(self).buffer@.last().flags.bits() == 0,
            !r ==> *final(self) == *old(self),
    {
        self.log_with_flags(timestamp_us, frame_bytes, EthernetFlags::rx())
    }

    /// Log a transmitted frame (`false` when shorter than the header).
    pub fn log_tx(&mut self, timestamp_us: u64, frame_bytes: &[u8]) -> (r: bool)
        requires
            old(self).wf(),
        ensures
            r == (frame_bytes@.len() >= ETH_HEADER_SIZE),
            r ==> final(self).logged(old(self), timestamp_us, frame_bytes@, final(self).buffer@.last().flags),
            r ==> final(self).buffer@.last().flags.bits() == EthernetFlags::TX,
            !r ==> *final(self) == *old(self),
    {
        self.log_with_flags(timestamp_us, frame_bytes, EthernetFlags::tx())
    }

    /// Log a received frame (`false` when shorter than the header).
    pub fn log_rx(&mut self, timestamp_us: u64, frame_bytes: &[u8]) -> (r: bool)
        requires
            old(self).wf(),
        ensures
            r == (frame_bytes@.len() >= ETH_HEADER_SIZE),
            r ==> final(self).logged(old(self), timestamp_us, frame_bytes@, final(self).buffer@.last().flags),
            r ==> final(self).buffer@.last().flags.bits() == 0,
            !r ==> *final(self) == *old(self),
    {
        self.log_with_flags(timestamp_us, frame_bytes, EthernetFlags::rx())
    }

    /// Log an Ethernet frame: its bytes with its flags.
    pub fn log_frame(&mut self, timestamp_us: u64, frame: EthernetFrame) -> (r: bool)
        requires
            old(self).wf(),
        ensures
            r == (spec_eth_frame_bytes(frame@).len() >= ETH_HEADER_SIZE),
            r ==> final(self).logged(old(self), timestamp_us, spec_eth_frame_bytes(frame@), frame.flags),
            !r ==> *final(self) == *old(self),
    {
        let bytes = frame.to_bytes();
        self.log_with_flags(timestamp_us, bytes.as_slice(), frame.flags)
    }

    /// Log an Ethernet frame by reference: its bytes with its flags.
    pub fn log_frame_ref(&mut self, timestamp_us: u64, frame: &EthernetFrame) -> (r: bool)
        requires
            old(self).wf(),
        ensures
            r == (spec_eth_frame_bytes(frame@).len() >= ETH_HEADER_SIZE),
            r ==> final(self).logged(old(self), timestamp_us, spec_eth_frame_bytes(frame@), frame.flags),
            !r ==> *final(self) == *old(self),
    {
        let bytes = frame.to_bytes();
        self.log_with_flags(timestamp_us, bytes.as_slice(), frame.flags)
    }

    /// Log a received, untagged frame built from its parts.
    pub fn log_components(
        &mut self,
        timestamp_us: u64,
        dst_mac: MacAddress,
        src_mac: MacAddress,
        ethertype: u16,
        payload: &[u8],
    ) -> (r: bool)
        requires
            old(self).wf(),
        ensures
            r,
            final(self).logged(
                old(self),
                timestamp_us,
                dst_mac.bytes() + src_mac.bytes() + crate::bytes::be16(ethertype) + payload@,
                final(self).buffer@.last().flags,
            ),
            final(self).buffer@.last().flags.bits() == 0,
    {
        let p = copy_range(payload, 0, payload.len());
        assert(payload@.subrange(0, payload@.len() as int) =~= payload@);
        let f = EthernetFrame::new(dst_mac, src_mac, ethertype, p);
        assert(spec_eth_frame_bytes(f@) =~= dst_mac.bytes() + src_mac.bytes() + crate::bytes::be16(ethertype) + payload@);
        self.log_frame(timestamp_us, f)
    }

    /// The size classes marked present, in order.
    fn present_classes(&self) -> (r: Vec<FrameSize>)
        requires
            self.present@.len() == 2,
        ensures
            r@ == spec_present_classes(self.present@),
    {
        let mut r: Vec<FrameSize> = Vec::new();
        if self.present[0] {
            r.push(FrameSize::Standard);
        }
        if self.present[1] {
            r.push(FrameSize::Jumbo);
        }
        proof {
            reveal_with_fuel(Seq::filter, 3);
            let all = seq![FrameSize::Standard, FrameSize::Jumbo];
            assert(all.drop_last() =~= seq![FrameSize::Standard]);
            assert(all.drop_last().drop_last() =~= Seq::<FrameSize>::empty());
        }
        assert(r@ =~= spec_present_classes(self.present@));
        r
    }

    /// A copy of the group classes.
    fn copy_classes(v: &Vec<FrameSize>) -> (r: Vec<FrameSize>)
        ensures
            r@ == v@,
    {
        let mut r: Vec<FrameSize> = Vec::new();
        let mut i: usize = 0;
        while i < v.len()
            invariant
                i <= v@.len(),
                r@ == v@.take(i as int),
            decreases v@.len() - i,
        {
            r.push(v[i]);
            i = i + 1;
            assert(r@ =~= v@.take(i as int));
        }
        assert(v@.take(v@.len() as int) =~= v@);
        r
    }

    /// The writers the first flush creates for the given classes.
    fn initial_writers(&self, classes: &Vec<FrameSize>) -> (r: Vec<BusLogWriter>)
        ensures
            writer_views(r@) == classes@.map_values(|c: FrameSize| spec_initial_eth_writer(self.source_name@, c)),
            all_wf(r@),
            forall|j: int| 0 <= j < r@.len() ==> (#[trigger] r@[j])@.frame_size == 3 + classes@[j].spec_max_frame_size(),
    {
        let mut r: Vec<BusLogWriter> = Vec::new();
        let mut j: usize = 0;
        while j < classes.len()
            invariant
                j <= classes@.len(),
                writer_views(r@) == classes@.take(j as int).map_values(|c: FrameSize| spec_initial_eth_writer(self.source_name@, c)),
                all_wf(r@),
                r@.len() == j,
                forall|k: int| 0 <= k < r@.len() ==> (#[trigger] r@[k])@.frame_size == 3 + classes@[k].spec_max_frame_size(),
            decreases classes@.len() - j,
        {
            let c = classes[j];
            let name: [u8; 9] = [0x45, 0x54, 0x48, 0x5F, 0x46, 0x72, 0x61, 0x6D, 0x65];
            let mut cname: Vec<u8> = Vec::new();
            push_slice(&mut cname, &name);
            assert(cname@ =~= eth_channel_name());
            let w = BusLogWriter::new(c.group_name(self.source_name.as_str()), cname, 3 + c.max_frame_size());
            assert(w@ == spec_initial_eth_writer(self.source_name@, c));
            let ghost r0 = r@;
            r.push(w);
            assert(writer_views(r@) =~= writer_views(r0).push(w@));
            assert(classes@.take(j + 1) =~= classes@.take(j as int).push(c));
            j = j + 1;
        }
        assert(classes@.take(classes@.len() as int) =~= classes@);
        r
    }

    /// Flush buffered frames: the first flush creates the groups of the classes logged so
    /// far; each group takes the buffered frames of its class as records; the buffer
    /// empties. Fails, changing nothing, when some group's record counter would overflow.
    pub fn flush(&mut self) -> (r: Result<(), MdfError>)
        requires
            old(self).wf(),
        ensures
            final(self).wf(),
            final(self).source_name == old(self).source_name,
            final(self).present == old(self).present,
            r is Err <==> old(self).flush_overflows(),
            r is Err ==> r == Err::<(), MdfError>(MdfError::RecordCountOverflow) && final(self).buffer
                == old(self).buffer && final(self).written() == old(self).written()
                && final(self).group_classes == old(self).group_classes,
            r is Ok ==> final(self).buffer@.len() == 0 && final(self).written() == Some(
                old(self).writers_after_flush(),
            ) && final(self).group_classes@ == old(self).classes_before_flush(),
    {
        let classes = match &self.groups {
            Some(_) => Self::copy_classes(&self.group_classes),
            None => self.present_classes(),
        };
        let ghost ws0 = self.writers_before_flush();
        let n = classes.len();
        let mut j: usize = 0;
        while j < n
            invariant
                n == classes@.len(),
                classes@ == self.classes_before_flush(),
                ws0 == self.writers_before_flush(),
                self.wf(),
                j <= n,
                forall|k: int|
                    0 <= k < j ==> (#[trigger] ws0[k]).count + spec_class_count(self.buffer@, classes@[k])
                        <= u64::MAX,
            decreases n - j,
        {
            let c = class_count(&self.buffer, classes[j]);
            let existing: u64 = match &self.groups {
                Some(gs) => gs[j].record_count(),
                None => 0,
            };
            proof {
                if self.groups is None {
                    assert(ws0[j as int].count == 0);
                }
            }
            if existing > u64::MAX - c as u64 {
                assert(ws0[j as int].count == existing);
                assert(old(self).writers_before_flush()[j as int].count + spec_class_count(
                    old(self).buffer@,
                    old(self).classes_before_flush()[j as int],
                ) > u64::MAX);
                return Err(MdfError::RecordCountOverflow);
            }
            j = j + 1;
        }
        let mut ws = match self.groups.take() {
            Some(gs) => gs,
            None => self.initial_writers(&classes),
        };
        assert(writer_views(ws@) =~= ws0);
        let ghost wsv = ws@;
        let mut out: Vec<BusLogWriter> = Vec::new();
        let mut j: usize = 0;
        while j < n
            invariant
                n == classes@.len(),
                ws0.len() == n,
                wsv.len() == n,
                writer_views(wsv) == ws0,
                ws@ == wsv.skip(j as int),
                all_wf(wsv),
                forall|k: int| 0 <= k < n ==> (#[trigger] wsv[k])@.frame_size == 3 + classes@[k].spec_max_frame_size(),
                forall|k: int|
                    0 <= k < n ==> (#[trigger] ws0[k]).count + spec_class_count(self.buffer@, classes@[k])
                        <= u64::MAX,
                j <= n,
                out@.len() == j,
                all_wf(out@),
                forall|k: int| 0 <= k < j ==> (#[trigger] out@[k])@.frame_size == 3 + classes@[k].spec_max_frame_size(),
                writer_views(out@) =~= Seq::new(j as nat, |k: int| spec_eth_written(ws0[k], self.buffer@, classes@[k])),
            decreases n - j,
        {
            let mut w = ws.remove(0);
            assert(w == wsv[j as int]);
            assert(ws0[j as int] == w@);
            write_class(&mut w, &self.buffer, classes[j]);
            assert(w@ == spec_eth_written(ws0[j as int], self.buffer@, classes@[j as int]));
            let ghost o0 = out@;
            out.push(w);
            assert(writer_views(out@) =~= writer_views(o0).push(w@));
            j = j + 1;
            assert(ws@ =~= wsv.skip(j as int));
        }
        self.buffer.clear();
        self.groups = Some(out);
        self.group_classes = classes;
        Ok(())
    }

    /// Flush and write the whole MDF file, returning its bytes.
    pub fn finalize(self) -> (r: Result<Vec<u8>, MdfError>)
        requires
            self.wf(),
        ensures
            self.flush_overflows() ==> r == Err::<Vec<u8>, MdfError>(MdfError::RecordCountOverflow),
            !self.flush_overflows() ==> {
                &&& r is Err <==> spec_log_len(self.writers_after_flush()) > u64::MAX
                &&& r is Err ==> r == Err::<Vec<u8>, MdfError>(MdfError::FileTooLarge)
                &&& r matches Ok(bytes) ==> bytes@ == spec_log_file(self.writers_after_flush())
            },
    {
        let mut s = self;
        s.flush()?;
        match &s.groups {
            Some(gs) => finalize_groups(gs),
            None => Err(MdfError::FileTooLarge),
        }
    }

    /// The total number of frames buffered.
    pub fn total_frame_count(&self) -> (r: usize)
        ensures
            r == self.buffer@.len(),
    {
        self.buffer.len()
    }

    /// The number of buffered standard frames.
    pub fn standard_frame_count(&self) -> (r: usize)
        ensures
            r == spec_class_count(self.buffer@, FrameSize::Standard),
    {
        class_count(&self.buffer, FrameSize::Standard)
    }

    /// The number of buffered jumbo frames.
    pub fn jumbo_frame_count(&self) -> (r: usize)
        ensures
            r == spec_class_count(self.buffer@, FrameSize::Jumbo),
    {
        class_count(&self.buffer, FrameSize::Jumbo)
    }

    /// Whether a jumbo frame is buffered.
    pub fn has_jumbo_frames(&self) -> (r: bool)
        ensures
            r == (spec_class_count(self.buffer@, FrameSize::Jumbo) > 0),
    {
        self.jumbo_frame_count() > 0
    }

    /// The number of buffered transmitted frames.
    pub fn tx_frame_count(&self) -> (r: usize)
        ensures
            r == self.buffer@.filter(|f: RawEthFrame| f.flags.has(EthernetFlags::TX)).len(),
    {
        self.direction_count(true)
    }

    /// The number of buffered received frames.
    pub fn rx_frame_count(&self) -> (r: usize)
        ensures
            r == self.buffer@.filter(|f: RawEthFrame| !f.flags.has(EthernetFlags::TX)).len(),
    {
        self.direction_count(false)
    }

    /// The number of buffered frames whose direction is transmit (`tx`) or receive.
    fn direction_count(&self, tx: bool) -> (r: usize)
        ensures
            r == self.buffer@.filter(|f: RawEthFrame| f.flags.has(EthernetFlags::TX) == tx).len(),
            tx ==> r == self.buffer@.filter(|f: RawEthFrame| f.flags.has(EthernetFlags::TX)).len(),
            !tx ==> r == self.buffer@.filter(|f: RawEthFrame| !f.flags.has(EthernetFlags::TX)).len(),
    {
        let ghost p = |f: RawEthFrame| f.flags.has(EthernetFlags::TX) == tx;
        let n = self.buffer.len();
        let mut k: usize = 0;
        let mut i: usize = 0;
        while i < n
            invariant
                n == self.buffer@.len(),
                i <= n,
                k <= i,
                k == self.buffer@.take(i as int).filter(p).len(),
                p == (|f: RawEthFrame| f.flags.has(EthernetFlags::TX) == tx),
            decreases n - i,
        {
            proof {
                assert(self.buffer@.take(i + 1) =~= self.buffer@.take(i as int).push(self.buffer@[i as int]));
                self.buffer@.take(i as int).lemma_filter_len_push(p, self.buffer@[i as int]);
            }
            if self.buffer[i].flags.is_tx() == tx {
                k = k + 1;
            }
            i = i + 1;
        }
        assert(self.buffer@.take(n as int) =~= self.buffer@);
        assert(tx ==> (|f: RawEthFrame| f.flags.has(EthernetFlags::TX)) =~= p);
        assert(!tx ==> (|f: RawEthFrame| !f.flags.has(EthernetFlags::TX)) =~= p);
        k
    }

}

} // verus!

//! Raw CAN frame logger following the ASAM MDF4 bus-logging format.
//!
//! Frames are buffered; the first `flush` creates one channel group per frame type
//! logged so far (in the order of [`all_frame_types`]), named
//! `{bus_name}_DataFrame...`, whose data channel `CAN_DataFrame` holds each frame's
//! bytes. Each flush writes the buffered frames of each group's type as its records and
//! empties the buffer; frames of a type without a group are not written.

use vstd::prelude::*;
use vstd::utf8::encode_utf8;
use crate::bytes::le64;
use crate::error::MdfError;
use crate::writer::{
    all_wf, finalize_groups, spec_log_file, spec_log_len, writer_views, BusLogWriter,
    BusLogWriterView,
};
use super::fd::{len_to_dlc, spec_len_to_dlc, FdFlags, MAX_FD_DATA_LEN};
use super::fd_frame::FdFrame;
use super::raw_frame::{
    all_frame_types, can_dataframe_name, spec_prefix, FrameType, RawFrame, RawFrameView,
};

verus! {

/// The record bytes that buffered frames give the group of type `t`: for each frame of
/// that type, in order, its timestamp then its `CAN_DataFrame` bytes.
pub open spec fn spec_can_records(buf: Seq<RawFrame>, t: FrameType) -> Seq<u8>
    decreases buf.len(),
{
    if buf.len() == 0 {
        Seq::empty()
    } else {
        spec_can_records(buf.drop_last(), t) + if buf.last().spec_frame_type() == t {
            le64(buf.last().timestamp_us) + buf.last().spec_dataframe_bytes()
        } else {
            Seq::empty()
        }
    }
}

/// The number of buffered frames of type `t`.
pub open spec fn spec_type_count(buf: Seq<RawFrame>, t: FrameType) -> nat {
    buf.filter(|f: RawFrame| f.spec_frame_type() == t).len()
}

/// The writer the first flush creates for frame type `t` on `bus`.
pub open spec fn spec_initial_writer(bus: Seq<char>, t: FrameType) -> BusLogWriterView {
    BusLogWriterView {
        group_name: encode_utf8(bus) + t.spec_suffix(),
        data_name: can_dataframe_name(),
        frame_size: t.spec_frame_size() as nat,
        records: Seq::empty(),
        count: 0,
    }
}

/// The frame types marked in `present`, in order.
pub open spec fn spec_present_types(present: Seq<bool>) -> Seq<FrameType> {
    all_frame_types().filter(|t: FrameType| present[t.spec_index()])
}

/// A group writer after taking the frames of its type from `buf`.
pub open spec fn spec_written(w: BusLogWriterView, buf: Seq<RawFrame>, t: FrameType) -> BusLogWriterView {
    BusLogWriterView {
        records: w.records + spec_can_records(buf, t),
        count: (w.count + spec_type_count(buf, t)) as u64,
        ..w
    }
}

/// The entry that logging `frame` at `timestamp_us` appends: the frame's identifier
/// (raw value and kind); for a CAN FD frame its first 64 data bytes, the DLC of its data
/// length and its flags; for a classic frame its first 8 data bytes, a DLC of their
/// count and no flags.
pub open spec fn spec_fd_frame_entry<F: FdFrame>(timestamp_us: u64, frame: F) -> RawFrameView {
    let data = frame.spec_frame_data();
    let fd = frame.spec_frame_is_fd();
    RawFrameView {
        timestamp_us,
        can_id: frame.spec_frame_id().spec_raw(),
        dlc: if fd { spec_len_to_dlc(data.len() as usize) } else { (if data.len() < 8 { data.len() } else { 8 }) as u8 },
        data: if fd { spec_prefix(data, MAX_FD_DATA_LEN as int) } else { spec_prefix(data, 8) },
        fd_flags: if fd { frame.spec_frame_flags() } else { FdFlags::spec_from_byte(0) },
        is_extended: frame.spec_frame_id().spec_extended(),
        is_fd: fd,
    }
}

/// Raw CAN frame logger using the ASAM MDF4 bus-logging format.
pub struct RawCanLogger {
    /// CAN bus name, for the group names.
    pub bus_name: String,
    /// Buffered frames, not yet written, in the order they were logged.
    pub buffer: Vec<RawFrame>,
    /// For each frame type (by position), whether a frame of that type was logged.
    pub present: Vec<bool>,
    /// The group writers, created by the first flush.
    pub groups: Option<Vec<BusLogWriter>>,
    /// The frame type of each group writer.
    pub group_types: Vec<FrameType>,
}

/// The number of frames of type `t` in `buf`.
fn type_count(buf: &Vec<RawFrame>, t: FrameType) -> (r: usize)
    ensures
        r == spec_type_count(buf@, t),
{
    let ghost p = |f: RawFrame| f.spec_frame_type() == t;
    let n = buf.len();
    let mut c: usize = 0;
    let mut i: usize = 0;
    while i < n
        invariant
            n == buf@.len(),
            i <= n,
            c <= i,
            c == buf@.take(i as int).filter(p).len(),
            p == (|f: RawFrame| f.spec_frame_type() == t),
        decreases n - i,
    {
        proof {
            assert(buf@.take(i + 1) =~= buf@.take(i as int).push(buf@[i as int]));
            buf@.take(i as int).lemma_filter_len_push(p, buf@[i as int]);
        }
        if buf[i].frame_type() == t {
            c = c + 1;
        }
        i = i + 1;
    }
    assert(buf@.take(n as int) =~= buf@);
    c
}

/// Appends to `w` the records of the frames of type `t` in `buf`.
fn write_group(w: &mut BusLogWriter, buf: &Vec<RawFrame>, t: FrameType)
    requires
        old(w).wf(),
        old(w)@.frame_size == t.spec_frame_size(),
        old(w)@.count + spec_type_count(buf@, t) <= u64::MAX,
    ensures
        final(w).wf(),
        final(w)@ == spec_written(old(w)@, buf@, t),
{
    let ghost p = |f: RawFrame| f.spec_frame_type() == t;
    let ghost w0 = w@;
    let n = buf.len();
    let mut i: usize = 0;
    while i < n
        invariant
            n == buf@.len(),
            i <= n,
            w.wf(),
            w@ == spec_written(w0, buf@.take(i as int), t),
            w0.frame_size == t.spec_frame_size(),
            w0.count + spec_type_count(buf@, t) <= u64::MAX,
            p == (|f: RawFrame| f.spec_frame_type() == t),
        decreases n - i,
    {
        let f = &buf[i];
        proof {
            let s = buf@.take(i + 1);
            assert(s.drop_last() =~= buf@.take(i as int));
            assert(s.last() == buf@[i as int]);
            assert(s =~= buf@.take(i as int).push(buf@[i as int]));
            buf@.take(i as int).lemma_filter_len_push(p, buf@[i as int]);
            lemma_type_count_prefix(buf@, t, i + 1);
        }
        if f.frame_type() == t {
            let bytes = f.to_dataframe_bytes();
            let res = w.write_record(f.timestamp_us, bytes.as_slice());
            assert(w0.records + spec_can_records(buf@.take(i + 1), t) =~= w0.records
                + spec_can_records(buf@.take(i as int), t) + le64(f.timestamp_us) + bytes@);
        } else {
            assert(spec_can_records(buf@.take(i + 1), t) =~= spec_can_records(buf@.take(i as int), t));
        }
        i = i + 1;
    }
    assert(buf@.take(n as int) =~= buf@);
}

/// A prefix has no more frames of a type than the whole.
proof fn lemma_type_count_prefix(buf: Seq<RawFrame>, t: FrameType, i: int)
    requires
        0 <= i <= buf.len(),
    ensures
        spec_type_count(buf.take(i), t) <= spec_type_count(buf, t),
    decreases buf.len() - i,
{
    let p = |f: RawFrame| f.spec_frame_type() == t;
    if i < buf.len() {
        lemma_type_count_prefix(buf, t, i + 1);
        assert(buf.take(i + 1) =~= buf.take(i).push(buf[i]));
        buf.take(i).lemma_filter_len_push(p, buf[i]);
    } else {
        assert(buf.take(i) =~= buf);
    }
}

/// The latest timestamp in `buf`, or 0 when it is empty.
pub open spec fn spec_last_timestamp(buf: Seq<RawFrame>) -> u64
    decreases buf.len(),
{
    if buf.len() == 0 {
        0
    } else {
        let m = spec_last_timestamp(buf.drop_last());
        if buf.last().timestamp_us > m { buf.last().timestamp_us } else { m }
    }
}

/// Which frames a count takes.
enum FrameSelect {
    Id(u32),
    Standard,
    Extended,
}

impl FrameSelect {
    spec fn selects(self, f: RawFrame) -> bool {
        match self {
            FrameSelect::Id(id) => f.can_id == id,
            FrameSelect::Standard => !f.is_extended,
            FrameSelect::Extended => f.is_extended,
        }
    }

    fn test(&self, f: &RawFrame) -> (r: bool)
        ensures
            r == self.selects(*f),
    {
        match self {
            FrameSelect::Id(id) => f.can_id == *id,
            FrameSelect::Standard => !f.is_extended,
            FrameSelect::Extended => f.is_extended,
        }
    }
}

/// The number of frames of `buf` that `sel` takes.
fn count_frames(buf: &Vec<RawFrame>, sel: FrameSelect) -> (r: usize)
    ensures
        r == buf@.filter(|f: RawFrame| sel.selects(f)).len(),
{
    let ghost p = |f: RawFrame| sel.selects(f);
    let n = buf.len();
    let mut c: usize = 0;
    let mut i: usize = 0;
    while i < n
        invariant
            n == buf@.len(),
            i <= n,
            c <= i,
            c == buf@.take(i as int).filter(p).len(),
            p == (|f: RawFrame| sel.selects(f)),
        decreases n - i,
    {
        proof {
            assert(buf@.take(i + 1) =~= buf@.take(i as int).push(buf@[i as int]));
            buf@.take(i as int).lemma_filter_len_push(p, buf@[i as int]);
        }
        if sel.test(&buf[i]) {
            c = c + 1;
        }
        i = i + 1;
    }
    assert(buf@.take(n as int) =~= buf@);
    c
}

/// Whether `x` occurs in `v`.
fn contains_u32(v: &Vec<u32>, x: u32) -> (r: bool)
    ensures
        r == v@.contains(x),
{
    let mut i: usize = 0;
    while i < v.len()
        invariant
            i <= v@.len(),
            forall|j: int| 0 <= j < i ==> v@[j] != x,
        decreases v@.len() - i,
    {
        if v[i] == x {
            return true;
        }
        i = i + 1;
    }
    false
}

impl RawCanLogger {
    /// The logger is consistent: one mark per frame type, and each group writer holds
    /// records of its type's frame size.
    pub open spec fn wf(&self) -> bool {
        &&& self.present@.len() == 6
        &&& match self.groups {
            Some(gs) => {
                &&& gs@.len() == self.group_types@.len()
                &&& all_wf(gs@)
                &&& forall|j: int|
                    0 <= j < gs@.len() ==> (#[trigger] gs@[j])@.frame_size
                        == self.group_types@[j].spec_frame_size()
            },
            None => true,
        }
    }

    /// The views of the group writers, once created.
    pub open spec fn written(&self) -> Option<Seq<BusLogWriterView>> {
        match self.groups {
            Some(gs) => Some(writer_views(gs@)),
            None => None,
        }
    }

    /// The group types a flush writes to: the existing groups', or those the first
    /// flush creates.
    pub open spec fn types_before_flush(&self) -> Seq<FrameType> {
        match self.groups {
            Some(_) => self.group_types@,
            None => spec_present_types(self.present@),
        }
    }

    /// The group writers a flush writes to.
    pub open spec fn writers_before_flush(&self) -> Seq<BusLogWriterView> {
        match self.groups {
            Some(gs) => writer_views(gs@),
            None => spec_present_types(self.present@).map_values(
                |t: FrameType| spec_initial_writer(self.bus_name@, t),
            ),
        }
    }

    /// The group writers after a flush that succeeds.
    pub open spec fn writers_after_flush(&self) -> Seq<BusLogWriterView> {
        let ws = self.writers_before_flush();
        let ts = self.types_before_flush();
        Seq::new(ws.len(), |j: int| spec_written(ws[j], self.buffer@, ts[j]))
    }

    /// Whether a flush would overflow some group's record counter.
    pub open spec fn flush_overflows(&self) -> bool {
        exists|j: int|
            0 <= j < self.types_before_flush().len() && (#[trigger] self.writers_before_flush()[j]).count
                + spec_type_count(self.buffer@, self.types_before_flush()[j]) > u64::MAX
    }

    /// A logger with nothing logged or written.
    pub open spec fn is_fresh(&self, name: Seq<char>) -> bool {
        &&& self.wf()
        &&& self.bus_name@ == name
        &&& self.buffer@.len() == 0
        &&& self.present@ == seq![false, false, false, false, false, false]
        &&& self.groups is None
    }

    /// The logger after `old` took `frame`, which is marked present.
    pub open spec fn logged(&self, old: &Self, frame: RawFrame) -> bool {
        &&& self.wf()
        &&& self.bus_name == old.bus_name
        &&& self.written() == old.written()
        &&& self.group_types == old.group_types
        &&& self.buffer@ == old.buffer@.push(frame)
        &&& self.present@ == old.present@.update(frame.spec_frame_type().spec_index(), true)
    }

    /// Create a new raw CAN logger with in-memory output.
    pub fn new() -> (r: Result<Self, MdfError>)
        ensures
            r matches Ok(l) && l.is_fresh("CAN"@),
    {
        Self::with_source_name("CAN")
    }

    /// Create a new raw CAN logger with a custom source name, used for the group names.
    pub fn with_source_name(source_name: &str) -> (r: Result<Self, MdfError>)
        ensures
            r matches Ok(l) && l.is_fresh(source_name@),
    {
        let present: Vec<bool> = vec![false, false, false, false, false, false];
        Ok(Self { bus_name: source_name.to_owned(), buffer: Vec::new(), present, groups: None, group_types: Vec::new() })
    }

    /// Create a new raw CAN logger with a custom bus name.
    pub fn with_bus_name(bus_name: &str) -> (r: Result<Self, MdfError>)
        ensures
            r matches Ok(l) && l.is_fresh(bus_name@),
    {
        Self::with_source_name(bus_name)
    }

    /// Create a new raw CAN logger; the capacity is a hint that is not needed here.
    pub fn with_capacity(capacity: usize) -> (r: Result<Self, MdfError>)
        ensures
            r matches Ok(l) && l.is_fresh("CAN"@),
    {
        Self::with_source_name("CAN")
    }

    /// Set the bus name used for the group names.
    pub fn set_source_name(&mut self, name: &str)
        ensures
            final(self).bus_name@ == name@,
            final(self).buffer == old(self).buffer,
            final(self).present == old(self).present,
            final(self).groups == old(self).groups,
            final(self).group_types == old(self).group_types,
    {
        self.bus_name = name.to_owned();
    }

    /// Set the CAN bus name used for the group names.
    pub fn set_bus_name(&mut self, name: &str)
        ensures
            final(self).bus_name@ == name@,
            final(self).buffer == old(self).buffer,
            final(self).present == old(self).present,
            final(self).groups == old(self).groups,
            final(self).group_types == old(self).group_types,
    {
        self.set_source_name(name);
    }

    /// Buffer a frame and mark its type present.
    pub(crate) fn push_frame(&mut self, frame: RawFrame)
        requires
            old(self).wf(),
        ensures
            final(self).logged(old(self), frame),
    {
        let t = frame.frame_type();
        let k = t.index();
        self.present.set(k, true);
        self.buffer.push(frame);
    }

    /// Log a classic frame with a standard 11-bit ID (at most 8 data bytes are kept).
    /// Always returns `true`.
    pub fn log(&mut self, can_id: u32, timestamp_us: u64, data: &[u8]) -> (r: bool)
        requires
            old(self).wf(),
        ensures
            r,
            final(self).logged(old(self), RawFrame {
                timestamp_us,
                can_id,
                dlc: (if data@.len() < 8 { data@.len() } else { 8 }) as u8,
                data: final(self).buffer@.last().data,
                fd_flags: FdFlags::spec_from_byte(0),
                is_extended: false,
                is_fd: false,
            }),
            final(self).buffer@.last().data@ == spec_prefix(data@, 8),
    {
        let dlc: u8 = if data.len() < 8 { data.len() as u8 } else { 8 };
        let frame = RawFrame::new_classic(timestamp_us, can_id, dlc, data, false);
        self.push_frame(frame);
        true
    }

    /// Log a classic frame with an extended 29-bit ID (at most 8 data bytes are kept).
    /// Always returns `true`.
    pub fn log_extended(&mut self, can_id: u32, timestamp_us: u64, data: &[u8]) -> (r: bool)
        requires
            old(self).wf(),
        ensures
            r,
            final(self).logged(old(self), RawFrame {
                timestamp_us,
                can_id,
                dlc: (if data@.len() < 8 { data@.len() } else { 8 }) as u8,
                data: final(self).buffer@.last().data,
                fd_flags: FdFlags::spec_from_byte(0),
                is_extended: true,
                is_fd: false,
            }),
            final(self).buffer@.last().data@ == spec_prefix(data@, 8),
    {
        let dlc: u8 = if data.len() < 8 { data.len() as u8 } else { 8 };
        let frame = RawFrame::new_classic(timestamp_us, can_id, dlc, data, true);
        self.push_frame(frame);
        true
    }

    /// Log a CAN FD frame with a standard 11-bit ID (at most 64 data bytes are kept).
    /// Always returns `true`.
    pub fn log_fd(&mut self, can_id: u32, timestamp_us: u64, data: &[u8], flags: FdFlags) -> (r: bool)
        requires
            old(self).wf(),
        ensures
            r,
            final(self).logged(old(self), RawFrame {
                timestamp_us,
                can_id,
                dlc: spec_len_to_dlc(data@.len() as usize),
                data: final(self).buffer@.last().data,
                fd_flags: flags,
                is_extended: false,
                is_fd: true,
            }),
            final(self).buffer@.last().data@ == spec_prefix(data@, MAX_FD_DATA_LEN as int),
    {
        let dlc = len_to_dlc(data.len());
        let frame = RawFrame::new_fd(timestamp_us, can_id, dlc, data, flags, false);
        self.push_frame(frame);
        true
    }

    /// Log a CAN FD frame with an extended 29-bit ID (at most 64 data bytes are kept).
    /// Always returns `true`.
    pub fn log_fd_extended(&mut self, can_id: u32, timestamp_us: u64, data: &[u8], flags: FdFlags) -> (r: bool)
        requires
            old(self).wf(),
        ensures
            r,
            final(self).logged(old(self), RawFrame {
                timestamp_us,
                can_id,
                dlc: spec_len_to_dlc(data@.len() as usize),
                data: final(self).buffer@.last().data,
                fd_flags: flags,
                is_extended: true,
                is_fd: true,
            }),
            final(self).buffer@.last().data@ == spec_prefix(data@, MAX_FD_DATA_LEN as int),
    {
        let dlc = len_to_dlc(data.len());
        let frame = RawFrame::new_fd(timestamp_us, can_id, dlc, data, flags, true);
        self.push_frame(frame);
        true
    }

    /// The frame types marked present, in order.
    fn present_types(&self) -> (r: Vec<FrameType>)
        requires
            self.present@.len() == 6,
        ensures
            r@ == spec_present_types(self.present@),
    {
        let ghost p = |t: FrameType| self.present@[t.spec_index()];
        let mut r: Vec<FrameType> = Vec::new();
        let mut k: usize = 0;
        while k < 6
            invariant
                k <= 6,
                self.present@.len() == 6,
                p == (|t: FrameType| self.present@[t.spec_index()]),
                r@ == all_frame_types().take(k as int).filter(p),
            decreases 6 - k,
        {
            let t = FrameType::at(k);
            proof {
                reveal(Seq::filter);
                let s = all_frame_types().take(k + 1);
                assert(s.drop_last() =~= all_frame_types().take(k as int));
                assert(s.last() == t);
                assert(t.spec_index() == k);
            }
            if self.present[k] {
                r.push(t);
            }
            k = k + 1;
        }
        assert(all_frame_types().take(6) =~= all_frame_types());
        r
    }

    /// A copy of the group types.
    fn copy_types(v: &Vec<FrameType>) -> (r: Vec<FrameType>)
        ensures
            r@ == v@,
    {
        let mut r: Vec<FrameType> = Vec::new();
        let mut i: usize = 0;
        while i < v.len()
            invariant
                i <= v@.len(),
                r@ == v@.take(i as int),
            decreases v@.len() - i,
        {
            r.push(v[i]);
            i = i + 1;
            assert(r@ =~= v@.take(i as int));
        }
        assert(v@.take(v@.len() as int) =~= v@);
        r
    }

    /// The writers the first flush creates for the given types.
    fn initial_writers(&self, types: &Vec<FrameType>) -> (r: Vec<BusLogWriter>)
        ensures
            writer_views(r@) == types@.map_values(|t: FrameType| spec_initial_writer(self.bus_name@, t)),
            all_wf(r@),
            forall|j: int| 0 <= j < r@.len() ==> (#[trigger] r@[j])@.frame_size == types@[j].spec_frame_size(),
    {
        let mut r: Vec<BusLogWriter> = Vec::new();
        let mut j: usize = 0;
        while j < types.len()
            invariant
                j <= types@.len(),
                writer_views(r@) == types@.take(j as int).map_values(|t: FrameType| spec_initial_writer(self.bus_name@, t)),
                all_wf(r@),
                r@.len() == j,
                forall|k: int| 0 <= k < r@.len() ==> (#[trigger] r@[k])@.frame_size == types@[k].spec_frame_size(),
            decreases types@.len() - j,
        {
            let t = types[j];
            let w = BusLogWriter::new(t.group_name(self.bus_name.as_str()), t.channel_name(), t.frame_size());
            assert(w@ == spec_initial_writer(self.bus_name@, t));
            let ghost r0 = r@;
            r.push(w);
            assert(writer_views(r@) =~= writer_views(r0).push(w@));
            assert(types@.take(j + 1) =~= types@.take(j as int).push(t));
            j = j + 1;
            assert(writer_views(r@) =~= types@.take(j as int).map_values(|t: FrameType| spec_initial_writer(self.bus_name@, t)));
        }
        assert(types@.take(types@.len() as int) =~= types@);
        r
    }

    /// Log a frame given through the frame interface: a CAN FD or a classic frame, with
    /// a standard or an extended identifier, as the frame says. Always returns `true`.
    pub fn log_fd_frame<F: FdFrame>(&mut self, timestamp_us: u64, frame: &F) -> (r: bool)
        requires
            old(self).wf(),
        ensures
            r,
            final(self).logged(old(self), final(self).buffer@.last()),
            final(self).buffer@.last()@ == spec_fd_frame_entry(timestamp_us, *frame),
    {
        let id = frame.id();
        let extended = id.is_extended();
        let raw = id.raw();
        if frame.is_fd() {
            if extended {
                self.log_fd_extended(raw, timestamp_us, frame.data(), frame.fd_flags())
            } else {
                self.log_fd(raw, timestamp_us, frame.data(), frame.fd_flags())
            }
        } else {
            if extended {
                self.log_extended(raw, timestamp_us, frame.data())
            } else {
                self.log(raw, timestamp_us, frame.data())
            }
        }
    }

    /// Flush buffered frames: the first flush creates the groups of the types logged so
    /// far; each group takes the buffered frames of its type as records; the buffer
    /// empties. Fails, changing nothing, when some group's record counter would overflow.
    pub fn flush(&mut self) -> (r: Result<(), MdfError>)
        requires
            old(self).wf(),
        ensures
            final(self).wf(),
            final(self).bus_name == old(self).bus_name,
            final(self).present == old(self).present,
            r is Err <==> old(self).flush_overflows(),
            r is Err ==> r == Err::<(), MdfError>(MdfError::RecordCountOverflow) && final(self).buffer
                == old(self).buffer && final(self).written() == old(self).written()
                && final(self).group_types == old(self).group_types,
            r is Ok ==> final(self).buffer@.len() == 0 && final(self).written() == Some(
                old(self).writers_after_flush(),
            ) && final(self).group_types@ == old(self).types_before_flush(),
    {
        let types = match &self.groups {
            Some(_) => Self::copy_types(&self.group_types),
            None => self.present_types(),
        };
        let ghost ws0 = self.writers_before_flush();
        let n = types.len();
        let mut j: usize = 0;
        while j < n
            invariant
                n == types@.len(),
                types@ == self.types_before_flush(),
                ws0 == self.writers_before_flush(),
                self.wf(),
                j <= n,
                forall|k: int|
                    0 <= k < j ==> (#[trigger] ws0[k]).count + spec_type_count(self.buffer@, types@[k])
                        <= u64::MAX,
            decreases n - j,
        {
            let c = type_count(&self.buffer, types[j]);
            let existing: u64 = match &self.groups {
                Some(gs) => gs[j].record_count(),
                None => 0,
            };
            proof {
                if self.groups is None {
                    assert(ws0[j as int].count == 0);
                }
            }
            if existing > u64::MAX - c as u64 {
                assert(ws0[j as int].count == existing);
                assert(old(self).writers_before_flush()[j as int].count + spec_type_count(
                    old(self).buffer@,
                    old(self).types_before_flush()[j as int],
                ) > u64::MAX);
                return Err(MdfError::RecordCountOverflow);
            }
            j = j + 1;
        }
        let mut ws = match self.groups.take() {
            Some(gs) => gs,
            None => self.initial_writers(&types),
        };
        assert(writer_views(ws@) =~= ws0);
        let ghost wsv = ws@;
        let mut out: Vec<BusLogWriter> = Vec::new();
        let mut j: usize = 0;
        while j < n
            invariant
                n == types@.len(),
                ws0.len() == n,
                wsv.len() == n,
                writer_views(wsv) == ws0,
                ws@ == wsv.skip(j as int),
                all_wf(wsv),
                forall|k: int| 0 <= k < n ==> (#[trigger] wsv[k])@.frame_size == types@[k].spec_frame_size(),
                forall|k: int|
                    0 <= k < n ==> (#[trigger] ws0[k]).count + spec_type_count(self.buffer@, types@[k])
                        <= u64::MAX,
                j <= n,
                out@.len() == j,
                all_wf(out@),
                forall|k: int| 0 <= k < j ==> (#[trigger] out@[k])@.frame_size == types@[k].spec_frame_size(),
                writer_views(out@) =~= Seq::new(j as nat, |k: int| spec_written(ws0[k], self.buffer@, types@[k])),
            decreases n - j,
        {
            let mut w = ws.remove(0);
            assert(w == wsv[j as int]);
            assert(ws0[j as int] == w@);
            write_group(&mut w, &self.buffer, types[j]);
            assert(w@ == spec_written(ws0[j as int], self.buffer@, types@[j as int]));
            let ghost o0 = out@;
            out.push(w);
            assert(writer_views(out@) =~= writer_views(o0).push(w@));
            j = j + 1;
            assert(ws@ =~= wsv.skip(j as int));
        }
        self.buffer.clear();
        self.groups = Some(out);
        self.group_types = types;
        Ok(())
    }


    /// Flush and write the whole MDF file, returning its bytes.
    pub fn finalize(self) -> (r: Result<Vec<u8>, MdfError>)
        requires
            self.wf(),
        ensures
            self.flush_overflows() ==> r == Err::<Vec<u8>, MdfError>(MdfError::RecordCountOverflow),
            !self.flush_overflows() ==> {
                &&& r is Err <==> spec_log_len(self.writers_after_flush()) > u64::MAX
                &&& r is Err ==> r == Err::<Vec<u8>, MdfError>(MdfError::FileTooLarge)
                &&& r matches Ok(bytes) ==> bytes@ == spec_log_file(self.writers_after_flush())
            },
    {
        let mut s = self;
        s.flush()?;
        match &s.groups {
            Some(gs) => finalize_groups(gs),
            None => Err(MdfError::FileTooLarge),
        }
    }

    /// The latest timestamp of the buffered frames, or 0 when there are none.
    pub fn last_timestamp_us(&self) -> (r: u64)
        ensures
            r == spec_last_timestamp(self.buffer@),
    {
        let mut m: u64 = 0;
        let mut i: usize = 0;
        while i < self.buffer.len()
            invariant
                i <= self.buffer@.len(),
                m == spec_last_timestamp(self.buffer@.take(i as int)),
            decreases self.buffer@.len() - i,
        {
            let t = self.buffer[i].timestamp_us;
            assert(self.buffer@.take(i + 1).drop_last() =~= self.buffer@.take(i as int));
            if t > m {
                m = t;
            }
            i = i + 1;
        }
        assert(self.buffer@.take(self.buffer@.len() as int) =~= self.buffer@);
        m
    }

    /// The number of frames buffered (those loaded from a file included).
    pub fn loaded_frame_count(&self) -> (r: usize)
        ensures
            r == self.buffer@.len(),
    {
        self.buffer.len()
    }

    /// The total number of frames buffered.
    pub fn total_frame_count(&self) -> (r: usize)
        ensures
            r == self.buffer@.len(),
    {
        self.buffer.len()
    }

    /// The number of buffered frames with this CAN ID.
    pub fn frame_count_for_id(&self, can_id: u32) -> (r: usize)
        ensures
            r == self.buffer@.filter(|f: RawFrame| f.can_id == can_id).len(),
    {
        let r = count_frames(&self.buffer, FrameSelect::Id(can_id));
        assert((|f: RawFrame| f.can_id == can_id) =~= (|f: RawFrame| FrameSelect::Id(can_id).selects(f)));
        r
    }

    /// The number of buffered frames with a standard 11-bit ID.
    pub fn standard_frame_count(&self) -> (r: usize)
        ensures
            r == self.buffer@.filter(|f: RawFrame| !f.is_extended).len(),
    {
        let r = count_frames(&self.buffer, FrameSelect::Standard);
        assert((|f: RawFrame| !f.is_extended) =~= (|f: RawFrame| FrameSelect::Standard.selects(f)));
        r
    }

    /// The number of buffered frames with an extended 29-bit ID.
    pub fn extended_frame_count(&self) -> (r: usize)
        ensures
            r == self.buffer@.filter(|f: RawFrame| f.is_extended).len(),
    {
        let r = count_frames(&self.buffer, FrameSelect::Extended);
        assert((|f: RawFrame| f.is_extended) =~= (|f: RawFrame| FrameSelect::Extended.selects(f)));
        r
    }

    /// Whether a CAN FD frame was ever logged.
    pub fn has_fd_frames(&self) -> (r: bool)
        requires
            self.wf(),
        ensures
            r == (self.present@[2] || self.present@[3] || self.present@[4] || self.present@[5]),
    {
        self.present[2] || self.present[3] || self.present[4] || self.present[5]
    }

    /// Whether a frame with an extended 29-bit ID was ever logged.
    pub fn has_extended_frames(&self) -> (r: bool)
        requires
            self.wf(),
        ensures
            r == (self.present@[1] || self.present@[3] || self.present@[5]),
    {
        self.present[1] || self.present[3] || self.present[5]
    }

    /// The number of distinct CAN IDs among the buffered frames.
    pub fn unique_id_count(&self) -> (r: usize)
        ensures
            r == self.buffer@.map_values(|f: RawFrame| f.can_id).to_set().len(),
    {
        let ghost f = |e: RawFrame| e.can_id;
        let n = self.buffer.len();
        let mut seen: Vec<u32> = Vec::new();
        let mut i: usize = 0;
        while i < n
            invariant
                n == self.buffer@.len(),
                i <= n,
                seen@.no_duplicates(),
                seen@.to_set() == self.buffer@.take(i as int).map_values(f).to_set(),
                f == (|e: RawFrame| e.can_id),
            decreases n - i,
        {
            let x = self.buffer[i].can_id;
            proof {
                assert(self.buffer@.take(i + 1).map_values(f) =~= self.buffer@.take(i as int).map_values(f) + seq![x]);
                Seq::lemma_to_set_insert_commutes(self.buffer@.take(i as int).map_values(f), x);
            }
            if !contains_u32(&seen, x) {
                proof {
                    assert(seen@.push(x) =~= seen@ + seq![x]);
                    Seq::lemma_to_set_insert_commutes(seen@, x);
                }
                seen.push(x);
            } else {
                proof {
                    assert(seen@.to_set().contains(x));
                    assert(seen@.to_set().insert(x) =~= seen@.to_set());
                }
            }
            i = i + 1;
        }
        assert(self.buffer@.take(n as int) =~= self.buffer@);
        proof {
            seen@.unique_seq_to_set();
        }
        seen.len()
    }

}

} // verus!

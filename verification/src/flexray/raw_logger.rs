//! Raw FlexRay frame logger following ASAM MDF4 Bus Logging specification.
//!
//! Frames are buffered; `flush` writes them as records of one channel group
//! `{source_name}_FLEXRAY_Frame` whose data channel `FLEXRAY_Frame` holds each frame's
//! bytes padded to the header plus the largest payload.

use vstd::prelude::*;
use vstd::utf8::encode_utf8;
use crate::bytes::{fit_to, spec_fit, le64, push_slice};
use crate::can::TimestampedFrame;
use crate::error::MdfError;
use crate::writer::{spec_bus_file, spec_file_len, BusLogWriter, BusLogWriterView};
use super::frame::{
    spec_flexray_bytes, spec_new_frame, FlexRayChannel, FlexRayFlags, FlexRayFrame,
    FlexRayFrameView, FLEXRAY_HEADER_SIZE, MAX_FLEXRAY_PAYLOAD,
};

verus! {

/// Frame size including header and max payload.
pub const FLEXRAY_FRAME_SIZE: usize = 262;

/// The bytes of `_FLEXRAY_Frame`, the suffix of the group name.
pub open spec fn flexray_group_suffix() -> Seq<u8> {
    seq![0x5Fu8, 0x46, 0x4C, 0x45, 0x58, 0x52, 0x41, 0x59, 0x5F, 0x46, 0x72, 0x61, 0x6D, 0x65]
}

/// The bytes of `FLEXRAY_Frame`, the name of the data channel.
pub open spec fn flexray_channel_name() -> Seq<u8> {
    flexray_group_suffix().subrange(1, 14)
}

/// The record bytes for buffered frames: for each, its timestamp then its frame bytes
/// fitted to 262 bytes.
pub open spec fn spec_flexray_records(buf: Seq<TimestampedFrame<FlexRayFrame>>) -> Seq<u8>
    decreases buf.len(),
{
    if buf.len() == 0 {
        Seq::empty()
    } else {
        spec_flexray_records(buf.drop_last()) + le64(buf.last().timestamp_us) + spec_fit(
            spec_flexray_bytes(buf.last().frame@),
            FLEXRAY_FRAME_SIZE as int,
        )
    }
}

/// The frame seen in a buffered entry.
pub open spec fn entry_frame(e: TimestampedFrame<FlexRayFrame>) -> FlexRayFrameView {
    e.frame@
}

/// Raw FlexRay frame logger using ASAM MDF4 Bus Logging format.
pub struct RawFlexRayLogger {
    /// Source name for metadata and the group name.
    pub source_name: String,
    /// Buffered frames, not yet written.
    pub buffer: Vec<TimestampedFrame<FlexRayFrame>>,
    /// The writer of the channel group, created by the first flush.
    pub writer: Option<BusLogWriter>,
}

impl RawFlexRayLogger {
    /// The writer, once the first flush has created it.
    pub open spec fn written(&self) -> Option<BusLogWriterView> {
        match self.writer {
            Some(w) => Some(w@),
            None => None,
        }
    }

    /// The logger is consistent: its writer, if any, holds records of 262-byte frames.
    pub open spec fn wf(&self) -> bool {
        match self.writer {
            Some(w) => w.wf() && w@.frame_size == FLEXRAY_FRAME_SIZE,
            None => true,
        }
    }

    /// A logger with nothing buffered or written.
    pub open spec fn is_fresh(&self, name: Seq<char>) -> bool {
        &&& self.wf()
        &&& self.source_name@ == name
        &&& self.buffer@.len() == 0
        &&& self.written() is None
    }

    /// The logger after `old` took one more frame.
    pub open spec fn logged(&self, old: &Self, timestamp_us: u64, frame: FlexRayFrameView) -> bool {
        &&& self.wf()
        &&& self.source_name == old.source_name
        &&& self.written() == old.written()
        &&& self.buffer@.len() == old.buffer@.len() + 1
        &&& self.buffer@.drop_last() == old.buffer@
        &&& self.buffer@.last().timestamp_us == timestamp_us
        &&& self.buffer@.last().frame@ == frame
    }

    /// Create a new raw FlexRay logger with in-memory output.
    pub fn new() -> (r: Result<Self, MdfError>)
        ensures
            r matches Ok(l) && l.is_fresh("FlexRay"@),
    {
        Self::with_source_name("FlexRay")
    }

    /// Create a new raw FlexRay logger with a custom source name.
    pub fn with_source_name(source_name: &str) -> (r: Result<Self, MdfError>)
        ensures
            r matches Ok(l) && l.is_fresh(source_name@),
    {
        Ok(Self { source_name: source_name.to_owned(), buffer: Vec::new(), writer: None })
    }

    /// Create a new raw FlexRay logger with a custom cluster name.
    pub fn with_cluster_name(cluster_name: &str) -> (r: Result<Self, MdfError>)
        ensures
            r matches Ok(l) && l.is_fresh(cluster_name@),
    {
        Self::with_source_name(cluster_name)
    }

    /// Create a new raw FlexRay logger; the capacity is a hint for the output size.
    pub fn with_capacity(capacity: usize) -> (r: Result<Self, MdfError>)
        ensures
            r matches Ok(l) && l.is_fresh("FlexRay"@),
    {
        Self::with_source_name("FlexRay")
    }

    /// Set the source name for metadata (used when the first flush creates the group).
    pub fn set_source_name(&mut self, name: &str)
        ensures
            final(self).source_name@ == name@,
            final(self).buffer@ == old(self).buffer@,
            final(self).written() == old(self).written(),
            final(self).wf() == old(self).wf(),
    {
        self.source_name = name.to_owned();
    }

    /// Set the FlexRay cluster name for source metadata.
    pub fn set_cluster_name(&mut self, name: &str)
        ensures
            final(self).source_name@ == name@,
            final(self).buffer@ == old(self).buffer@,
            final(self).written() == old(self).written(),
            final(self).wf() == old(self).wf(),
    {
        self.set_source_name(name);
    }

    /// Log a FlexRayFrame struct (takes ownership). Always returns `true`.
    pub fn log_frame(&mut self, timestamp_us: u64, frame: FlexRayFrame) -> (r: bool)
        requires
            old(self).wf(),
        ensures
            r,
            final(self).logged(old(self), timestamp_us, frame@),
    {
        self.buffer.push(TimestampedFrame::new(timestamp_us, frame));
        assert(self.buffer@.drop_last() =~= old(self).buffer@);
        true
    }

    /// Log a raw FlexRay frame built from its parts. Always returns `true`.
    pub fn log(
        &mut self,
        slot_id: u16,
        cycle: u8,
        channel: FlexRayChannel,
        timestamp_us: u64,
        payload: &[u8],
    ) -> (r: bool)
        requires
            old(self).wf(),
        ensures
            r,
            final(self).logged(old(self), timestamp_us, spec_new_frame(slot_id, cycle, channel, payload@)),
    {
        let mut p: Vec<u8> = Vec::new();
        push_slice(&mut p, payload);
        self.log_frame(timestamp_us, FlexRayFrame::new(slot_id, cycle, channel, p))
    }

    /// Log a FlexRay frame on channel A.
    pub fn log_channel_a(&mut self, slot_id: u16, cycle: u8, timestamp_us: u64, payload: &[u8]) -> (r: bool)
        requires
            old(self).wf(),
        ensures
            r,
            final(self).logged(old(self), timestamp_us, spec_new_frame(slot_id, cycle, FlexRayChannel::A, payload@)),
    {
        self.log(slot_id, cycle, FlexRayChannel::A, timestamp_us, payload)
    }

    /// Log a FlexRay frame on channel B.
    pub fn log_channel_b(&mut self, slot_id: u16, cycle: u8, timestamp_us: u64, payload: &[u8]) -> (r: bool)
        requires
            old(self).wf(),
        ensures
            r,
            final(self).logged(old(self), timestamp_us, spec_new_frame(slot_id, cycle, FlexRayChannel::B, payload@)),
    {
        self.log(slot_id, cycle, FlexRayChannel::B, timestamp_us, payload)
    }

    /// Log a transmitted FlexRay frame.
    pub fn log_tx(
        &mut self,
        slot_id: u16,
        cycle: u8,
        channel: FlexRayChannel,
        timestamp_us: u64,
        payload: &[u8],
    ) -> (r: bool)
        requires
            old(self).wf(),
        ensures
            r,
            final(self).logged(old(self), timestamp_us, FlexRayFrameView {
                flags: FlexRayFlags::VALID | FlexRayFlags::TX,
                ..spec_new_frame(slot_id, cycle, channel, payload@)
            }),
    {
        let mut p: Vec<u8> = Vec::new();
        push_slice(&mut p, payload);
        self.log_frame(timestamp_us, FlexRayFrame::new(slot_id, cycle, channel, p).with_tx())
    }

    /// Log a received FlexRay frame.
    pub fn log_rx(
        &mut self,
        slot_id: u16,
        cycle: u8,
        channel: FlexRayChannel,
        timestamp_us: u64,
        payload: &[u8],
    ) -> (r: bool)
        requires
            old(self).wf(),
        ensures
            r,
            final(self).logged(old(self), timestamp_us, FlexRayFrameView {
                flags: FlexRayFlags::VALID & !FlexRayFlags::TX,
                ..spec_new_frame(slot_id, cycle, channel, payload@)
            }),
    {
        let mut p: Vec<u8> = Vec::new();
        push_slice(&mut p, payload);
        self.log_frame(timestamp_us, FlexRayFrame::new(slot_id, cycle, channel, p).with_rx())
    }

    /// Log a FlexRayFrame struct by reference (copies the frame).
    pub fn log_frame_ref(&mut self, timestamp_us: u64, frame: &FlexRayFrame) -> (r: bool)
        requires
            old(self).wf(),
        ensures
            r,
            final(self).logged(old(self), timestamp_us, frame@),
    {
        let mut p: Vec<u8> = Vec::new();
        push_slice(&mut p, frame.payload.as_slice());
        let copy = FlexRayFrame {
            slot_id: frame.slot_id,
            cycle: frame.cycle,
            channel: frame.channel,
            flags: frame.flags,
            header_crc: frame.header_crc,
            payload: p,
        };
        self.log_frame(timestamp_us, copy)
    }

    /// Log a null frame (no payload).
    pub fn log_null_frame(&mut self, slot_id: u16, cycle: u8, channel: FlexRayChannel, timestamp_us: u64) -> (r: bool)
        requires
            old(self).wf(),
        ensures
            r,
            final(self).logged(old(self), timestamp_us, FlexRayFrameView {
                flags: FlexRayFlags::VALID | FlexRayFlags::NULL_FRAME,
                ..spec_new_frame(slot_id, cycle, channel, Seq::empty())
            }),
    {
        self.log_frame(timestamp_us, FlexRayFrame::null_frame(slot_id, cycle, channel))
    }

    /// Log a startup frame.
    pub fn log_startup(
        &mut self,
        slot_id: u16,
        cycle: u8,
        channel: FlexRayChannel,
        timestamp_us: u64,
        payload: &[u8],
    ) -> (r: bool)
        requires
            old(self).wf(),
        ensures
            r,
            final(self).logged(old(self), timestamp_us, FlexRayFrameView {
                flags: FlexRayFlags::VALID | FlexRayFlags::STARTUP | FlexRayFlags::SYNC,
                ..spec_new_frame(slot_id, cycle, channel, payload@)
            }),
    {
        let mut p: Vec<u8> = Vec::new();
        push_slice(&mut p, payload);
        self.log_frame(timestamp_us, FlexRayFrame::startup(slot_id, cycle, channel, p))
    }

    /// The writer the first flush creates: group `{source}_FLEXRAY_Frame`, channel
    /// `FLEXRAY_Frame`, 262-byte frames, nothing written.
    pub open spec fn spec_initial_writer(source: Seq<char>) -> BusLogWriterView {
        BusLogWriterView {
            group_name: encode_utf8(source) + flexray_group_suffix(),
            data_name: flexray_channel_name(),
            frame_size: FLEXRAY_FRAME_SIZE as nat,
            records: Seq::empty(),
            count: 0,
        }
    }

    /// The writer before a flush: the existing one, or the one the flush creates.
    pub open spec fn writer_before_flush(&self) -> BusLogWriterView {
        match self.written() {
            Some(w) => w,
            None => Self::spec_initial_writer(self.source_name@),
        }
    }

    /// Flush buffered frames to the writer: they become records and the buffer empties.
    /// Fails, changing nothing, when the record counter would overflow.
    pub fn flush(&mut self) -> (r: Result<(), MdfError>)
        requires
            old(self).wf(),
        ensures
            final(self).wf(),
            final(self).source_name == old(self).source_name,
            r is Err <==> old(self).writer_before_flush().count + old(self).buffer@.len() > u64::MAX,
            r is Err ==> r == Err::<(), MdfError>(MdfError::RecordCountOverflow) && final(self).buffer@
                == old(self).buffer@ && final(self).written() == old(self).written(),
            r is Ok ==> final(self).buffer@.len() == 0 && final(self).written() == Some(BusLogWriterView {
                records: old(self).writer_before_flush().records + spec_flexray_records(old(self).buffer@),
                count: (old(self).writer_before_flush().count + old(self).buffer@.len()) as u64,
                ..old(self).writer_before_flush()
            }),
    {
        let n = self.buffer.len();
        let existing: u64 = match &self.writer {
            Some(w) => w.record_count(),
            None => 0,
        };
        if existing > u64::MAX - n as u64 {
            return Err(MdfError::RecordCountOverflow);
        }
        let mut w = match self.writer.take() {
            Some(w) => w,
            None => {
                let mut name: Vec<u8> = Vec::new();
                push_slice(&mut name, self.source_name.as_str().as_bytes());
                let suffix: [u8; 14] = [
                    0x5F, 0x46, 0x4C, 0x45, 0x58, 0x52, 0x41, 0x59, 0x5F, 0x46, 0x72, 0x61, 0x6D,
                    0x65,
                ];
                push_slice(&mut name, &suffix);
                let chan: [u8; 13] = [
                    0x46, 0x4C, 0x45, 0x58, 0x52, 0x41, 0x59, 0x5F, 0x46, 0x72, 0x61, 0x6D, 0x65,
                ];
                let mut cname: Vec<u8> = Vec::new();
                push_slice(&mut cname, &chan);
                assert(suffix@ =~= flexray_group_suffix());
                assert(chan@ =~= flexray_channel_name());
                BusLogWriter::new(name, cname, FLEXRAY_FRAME_SIZE)
            },
        };
        let ghost w0 = w@;
        let mut i: usize = 0;
        while i < n
            invariant
                n == self.buffer@.len(),
                self.buffer@ == old(self).buffer@,
                i <= n,
                w.wf(),
                w@.frame_size == FLEXRAY_FRAME_SIZE,
                w0.count + n <= u64::MAX,
                w@ == (BusLogWriterView {
                    records: w0.records + spec_flexray_records(self.buffer@.take(i as int)),
                    count: (w0.count + i) as u64,
                    ..w0
                }),
            decreases n - i,
        {
            let entry = &self.buffer[i];
            let bytes = fit_to(entry.frame.to_bytes(), FLEXRAY_FRAME_SIZE);
            let res = w.write_record(entry.timestamp_us, bytes.as_slice());
            assert(self.buffer@.take(i + 1).drop_last() =~= self.buffer@.take(i as int));
            assert(w0.records + spec_flexray_records(self.buffer@.take(i + 1)) =~= w0.records
                + spec_flexray_records(self.buffer@.take(i as int)) + le64(entry.timestamp_us)
                + bytes@);
            i = i + 1;
        }
        assert(self.buffer@.take(n as int) =~= self.buffer@);
        self.buffer.clear();
        self.writer = Some(w);
        Ok(())
    }

    /// Flush and write the whole MDF file, returning its bytes.
    pub fn finalize(self) -> (r: Result<Vec<u8>, MdfError>)
        requires
            self.wf(),
        ensures
            ({
                let w = BusLogWriterView {
                    records: self.writer_before_flush().records + spec_flexray_records(self.buffer@),
                    count: (self.writer_before_flush().count + self.buffer@.len()) as u64,
                    ..self.writer_before_flush()
                };
                &&& self.writer_before_flush().count + self.buffer@.len() > u64::MAX ==> r
                    == Err::<Vec<u8>, MdfError>(MdfError::RecordCountOverflow)
                &&& self.writer_before_flush().count + self.buffer@.len() <= u64::MAX ==> {
                    &&& r is Err <==> spec_file_len(w.group_name, w.data_name, w.records) > u64::MAX
                    &&& r is Err ==> r == Err::<Vec<u8>, MdfError>(MdfError::FileTooLarge)
                    &&& r matches Ok(bytes) ==> bytes@ == spec_bus_file(w)
                }
            }),
    {
        let mut s = self;
        s.flush()?;
        match s.writer {
            Some(w) => w.finalize(),
            None => Err(MdfError::FileTooLarge),
        }
    }

    /// Get the total number of frames buffered.
    pub fn total_frame_count(&self) -> (r: usize)
        ensures
            r == self.buffer@.len(),
    {
        self.buffer.len()
    }

    /// Get the number of frames buffered for a specific slot ID.
    pub fn frame_count_for_slot(&self, slot_id: u16) -> (r: usize)
        ensures
            r == self.buffer@.filter(|e: TimestampedFrame<FlexRayFrame>| e.frame.slot_id == slot_id).len(),
    {
        let ghost p = |e: TimestampedFrame<FlexRayFrame>| e.frame.slot_id == slot_id;
        let n = self.buffer.len();
        let mut c: usize = 0;
        let mut i: usize = 0;
        while i < n
            invariant
                n == self.buffer@.len(),
                i <= n,
                c <= i,
                c == self.buffer@.take(i as int).filter(p).len(),
                p == (|e: TimestampedFrame<FlexRayFrame>| e.frame.slot_id == slot_id),
            decreases n - i,
        {
            proof {
                assert(self.buffer@.take(i + 1) =~= self.buffer@.take(i as int).push(self.buffer@[i as int]));
                self.buffer@.take(i as int).lemma_filter_len_push(p, self.buffer@[i as int]);
                assert(p(self.buffer@[i as int]) == (self.buffer@[i as int].frame.slot_id == slot_id));
            }
            if self.buffer[i].frame.slot_id == slot_id {
                c = c + 1;
            }
            i = i + 1;
        }
        assert(self.buffer@.take(n as int) =~= self.buffer@);
        c
    }

    /// Get count of transmitted frames.
    pub fn tx_frame_count(&self) -> (r: usize)
        ensures
            r == self.buffer@.filter(|e: TimestampedFrame<FlexRayFrame>| e.frame.flags.has(FlexRayFlags::TX)).len(),
    {
        let ghost p = |e: TimestampedFrame<FlexRayFrame>| e.frame.flags.has(FlexRayFlags::TX);
        let n = self.buffer.len();
        let mut c: usize = 0;
        let mut i: usize = 0;
        while i < n
            invariant
                n == self.buffer@.len(),
                i <= n,
                c <= i,
                c == self.buffer@.take(i as int).filter(p).len(),
                p == (|e: TimestampedFrame<FlexRayFrame>| e.frame.flags.has(FlexRayFlags::TX)),
            decreases n - i,
        {
            proof {
                assert(self.buffer@.take(i + 1) =~= self.buffer@.take(i as int).push(self.buffer@[i as int]));
                self.buffer@.take(i as int).lemma_filter_len_push(p, self.buffer@[i as int]);
            }
            let e = &self.buffer[i];
            if e.frame.flags.is_tx() {
                c = c + 1;
            }
            i = i + 1;
        }
        assert(self.buffer@.take(n as int) =~= self.buffer@);
        c
    }

    /// Get count of received frames.
    pub fn rx_frame_count(&self) -> (r: usize)
        ensures
            r == self.buffer@.filter(|e: TimestampedFrame<FlexRayFrame>| !e.frame.flags.has(FlexRayFlags::TX)).len(),
    {
        let ghost p = |e: TimestampedFrame<FlexRayFrame>| !e.frame.flags.has(FlexRayFlags::TX);
        let n = self.buffer.len();
        let mut c: usize = 0;
        let mut i: usize = 0;
        while i < n
            invariant
                n == self.buffer@.len(),
                i <= n,
                c <= i,
                c == self.buffer@.take(i as int).filter(p).len(),
                p == (|e: TimestampedFrame<FlexRayFrame>| !e.frame.flags.has(FlexRayFlags::TX)),
            decreases n - i,
        {
            proof {
                assert(self.buffer@.take(i + 1) =~= self.buffer@.take(i as int).push(self.buffer@[i as int]));
                self.buffer@.take(i as int).lemma_filter_len_push(p, self.buffer@[i as int]);
            }
            let e = &self.buffer[i];
            if e.frame.flags.is_rx() {
                c = c + 1;
            }
            i = i + 1;
        }
        assert(self.buffer@.take(n as int) =~= self.buffer@);
        c
    }

    /// Get count of channel A frames (includes AB).
    pub fn channel_a_count(&self) -> (r: usize)
        ensures
            r == self.buffer@.filter(|e: TimestampedFrame<FlexRayFrame>| (e.frame.channel == FlexRayChannel::A || e.frame.channel == FlexRayChannel::AB)).len(),
    {
        let ghost p = |e: TimestampedFrame<FlexRayFrame>| (e.frame.channel == FlexRayChannel::A || e.frame.channel == FlexRayChannel::AB);
        let n = self.buffer.len();
        let mut c: usize = 0;
        let mut i: usize = 0;
        while i < n
            invariant
                n == self.buffer@.len(),
                i <= n,
                c <= i,
                c == self.buffer@.take(i as int).filter(p).len(),
                p == (|e: TimestampedFrame<FlexRayFrame>| (e.frame.channel == FlexRayChannel::A || e.frame.channel == FlexRayChannel::AB)),
            decreases n - i,
        {
            proof {
                assert(self.buffer@.take(i + 1) =~= self.buffer@.take(i as int).push(self.buffer@[i as int]));
                self.buffer@.take(i as int).lemma_filter_len_push(p, self.buffer@[i as int]);
            }
            let e = &self.buffer[i];
            if (e.frame.channel == FlexRayChannel::A || e.frame.channel == FlexRayChannel::AB) {
                c = c + 1;
            }
            i = i + 1;
        }
        assert(self.buffer@.take(n as int) =~= self.buffer@);
        c
    }

    /// Get count of channel B frames (includes AB).
    pub fn channel_b_count(&self) -> (r: usize)
        ensures
            r == self.buffer@.filter(|e: TimestampedFrame<FlexRayFrame>| (e.frame.channel == FlexRayChannel::B || e.frame.channel == FlexRayChannel::AB)).len(),
    {
        let ghost p = |e: TimestampedFrame<FlexRayFrame>| (e.frame.channel == FlexRayChannel::B || e.frame.channel == FlexRayChannel::AB);
        let n = self.buffer.len();
        let mut c: usize = 0;
        let mut i: usize = 0;
        while i < n
            invariant
                n == self.buffer@.len(),
                i <= n,
                c <= i,
                c == self.buffer@.take(i as int).filter(p).len(),
                p == (|e: TimestampedFrame<FlexRayFrame>| (e.frame.channel == FlexRayChannel::B || e.frame.channel == FlexRayChannel::AB)),
            decreases n - i,
        {
            proof {
                assert(self.buffer@.take(i + 1) =~= self.buffer@.take(i as int).push(self.buffer@[i as int]));
                self.buffer@.take(i as int).lemma_filter_len_push(p, self.buffer@[i as int]);
            }
            let e = &self.buffer[i];
            if (e.frame.channel == FlexRayChannel::B || e.frame.channel == FlexRayChannel::AB) {
                c = c + 1;
            }
            i = i + 1;
        }
        assert(self.buffer@.take(n as int) =~= self.buffer@);
        c
    }

    /// Get count of startup frames.
    pub fn startup_frame_count(&self) -> (r: usize)
        ensures
            r == self.buffer@.filter(|e: TimestampedFrame<FlexRayFrame>| e.frame.flags.has(FlexRayFlags::STARTUP)).len(),
    {
        let ghost p = |e: TimestampedFrame<FlexRayFrame>| e.frame.flags.has(FlexRayFlags::STARTUP);
        let n = self.buffer.len();
        let mut c: usize = 0;
        let mut i: usize = 0;
        while i < n
            invariant
                n == self.buffer@.len(),
                i <= n,
                c <= i,
                c == self.buffer@.take(i as int).filter(p).len(),
                p == (|e: TimestampedFrame<FlexRayFrame>| e.frame.flags.has(FlexRayFlags::STARTUP)),
            decreases n - i,
        {
            proof {
                assert(self.buffer@.take(i + 1) =~= self.buffer@.take(i as int).push(self.buffer@[i as int]));
                self.buffer@.take(i as int).lemma_filter_len_push(p, self.buffer@[i as int]);
            }
            let e = &self.buffer[i];
            if e.frame.flags.is_startup() {
                c = c + 1;
            }
            i = i + 1;
        }
        assert(self.buffer@.take(n as int) =~= self.buffer@);
        c
    }

    /// Get count of null frames.
    pub fn null_frame_count(&self) -> (r: usize)
        ensures
            r == self.buffer@.filter(|e: TimestampedFrame<FlexRayFrame>| e.frame.flags.has(FlexRayFlags::NULL_FRAME)).len(),
    {
        let ghost p = |e: TimestampedFrame<FlexRayFrame>| e.frame.flags.has(FlexRayFlags::NULL_FRAME);
        let n = self.buffer.len();
        let mut c: usize = 0;
        let mut i: usize = 0;
        while i < n
            invariant
                n == self.buffer@.len(),
                i <= n,
                c <= i,
                c == self.buffer@.take(i as int).filter(p).len(),
                p == (|e: TimestampedFrame<FlexRayFrame>| e.frame.flags.has(FlexRayFlags::NULL_FRAME)),
            decreases n - i,
        {
            proof {
                assert(self.buffer@.take(i + 1) =~= self.buffer@.take(i as int).push(self.buffer@[i as int]));
                self.buffer@.take(i as int).lemma_filter_len_push(p, self.buffer@[i as int]);
            }
            let e = &self.buffer[i];
            if e.frame.flags.is_null_frame() {
                c = c + 1;
            }
            i = i + 1;
        }
        assert(self.buffer@.take(n as int) =~= self.buffer@);
        c
    }

    /// Get count of frames for a specific channel.
    pub fn channel_frame_count(&self, channel: FlexRayChannel) -> (r: usize)
        ensures
            r == self.buffer@.filter(|e: TimestampedFrame<FlexRayFrame>| e.frame.channel == channel).len(),
    {
        let ghost p = |e: TimestampedFrame<FlexRayFrame>| e.frame.channel == channel;
        let n = self.buffer.len();
        let mut c: usize = 0;
        let mut i: usize = 0;
        while i < n
            invariant
                n == self.buffer@.len(),
                i <= n,
                c <= i,
                c == self.buffer@.take(i as int).filter(p).len(),
                p == (|e: TimestampedFrame<FlexRayFrame>| e.frame.channel == channel),
            decreases n - i,
        {
            proof {
                assert(self.buffer@.take(i + 1) =~= self.buffer@.take(i as int).push(self.buffer@[i as int]));
                self.buffer@.take(i as int).lemma_filter_len_push(p, self.buffer@[i as int]);
            }
            let e = &self.buffer[i];
            if e.frame.channel == channel {
                c = c + 1;
            }
            i = i + 1;
        }
        assert(self.buffer@.take(n as int) =~= self.buffer@);
        c
    }

    /// Get the number of distinct slot IDs among the buffered frames.
    pub fn unique_slot_count(&self) -> (r: usize)
        ensures
            r == self.buffer@.map_values(|e: TimestampedFrame<FlexRayFrame>| e.frame.slot_id).to_set().len(),
    {
        let ghost f = |e: TimestampedFrame<FlexRayFrame>| e.frame.slot_id;
        let n = self.buffer.len();
        let mut seen: Vec<u16> = Vec::new();
        let mut i: usize = 0;
        while i < n
            invariant
                n == self.buffer@.len(),
                i <= n,
                seen@.no_duplicates(),
                seen@.to_set() == self.buffer@.take(i as int).map_values(f).to_set(),
                f == (|e: TimestampedFrame<FlexRayFrame>| e.frame.slot_id),
            decreases n - i,
        {
            let x = self.buffer[i].frame.slot_id;
            proof {
                assert(self.buffer@.take(i + 1).map_values(f) =~= self.buffer@.take(i as int).map_values(f) + seq![x]);
                Seq::lemma_to_set_insert_commutes(self.buffer@.take(i as int).map_values(f), x);
            }
            if !contains_u16(&seen, x) {
                proof {
                    assert(seen@.push(x) =~= seen@ + seq![x]);
                    Seq::lemma_to_set_insert_commutes(seen@, x);
                }
                seen.push(x);
            } else {
                proof {
                    assert(seen@.to_set().contains(x));
                    assert(seen@.to_set().insert(x) =~= seen@.to_set());
                }
            }
            i = i + 1;
        }
        assert(self.buffer@.take(n as int) =~= self.buffer@);
        proof {
            seen@.unique_seq_to_set();
        }
        seen.len()
    }
}

/// Whether `x` occurs in `v`.
pub(crate) fn contains_u16(v: &Vec<u16>, x: u16) -> (r: bool)
    ensures
        r == v@.contains(x),
{
    let mut i: usize = 0;
    while i < v.len()
        invariant
            i <= v@.len(),
            forall|j: int| 0 <= j < i ==> v@[j] != x,
        decreases v@.len() - i,
    {
        if v[i] == x {
            return true;
        }
        i = i + 1;
    }
    false
}

} // verus!

//! Raw LIN frame logger following ASAM MDF4 Bus Logging specification.
//!
//! Frames are buffered; `flush` writes them as records of one channel group
//! `{source_name}_LIN_Frame` whose data channel `LIN_Frame` holds each frame's 12 bytes.

use vstd::prelude::*;
use vstd::utf8::encode_utf8;
use crate::bytes::{fit_to, spec_fit, le64, push_slice};
use crate::can::TimestampedFrame;
use crate::error::MdfError;
use crate::writer::{spec_bus_file, spec_file_len, BusLogWriter, BusLogWriterView};
use super::frame::{
    spec_lin_bytes, spec_lin_checksum, spec_lin_payload, spec_new_lin, spec_protected_id,
    LinFlags, LinFrame, LinFrameView, MAX_LIN_ID,
};

verus! {

/// Size of a `LIN_Frame` record's frame bytes.
pub const LIN_FRAME_SIZE: usize = 12;

/// The bytes of `_LIN_Frame`, the suffix of the group name.
pub open spec fn lin_group_suffix() -> Seq<u8> {
    seq![0x5Fu8, 0x4C, 0x49, 0x4E, 0x5F, 0x46, 0x72, 0x61, 0x6D, 0x65]
}

/// The bytes of `LIN_Frame`, the name of the data channel.
pub open spec fn lin_channel_name() -> Seq<u8> {
    lin_group_suffix().subrange(1, 10)
}

/// The record bytes for buffered frames: for each, its timestamp then its 12 frame bytes.
pub open spec fn spec_lin_records(buf: Seq<TimestampedFrame<LinFrame>>) -> Seq<u8>
    decreases buf.len(),
{
    if buf.len() == 0 {
        Seq::empty()
    } else {
        spec_lin_records(buf.drop_last()) + le64(buf.last().timestamp_us) + spec_fit(
            spec_lin_bytes(buf.last().frame@),
            LIN_FRAME_SIZE as int,
        )
    }
}

/// The frame `with_enhanced_checksum` builds.
pub open spec fn spec_enhanced_lin(id: u8, data: Seq<u8>) -> LinFrameView {
    LinFrameView {
        checksum: spec_lin_checksum(
            spec_lin_payload(spec_new_lin(id, data)),
            spec_protected_id(id & MAX_LIN_ID),
        ),
        flags: LinFlags::ENHANCED_CHECKSUM,
        ..spec_new_lin(id, data)
    }
}

/// The frame `with_classic_checksum` builds.
pub open spec fn spec_classic_lin(id: u8, data: Seq<u8>) -> LinFrameView {
    LinFrameView {
        checksum: spec_lin_checksum(spec_lin_payload(spec_new_lin(id, data)), 0),
        ..spec_new_lin(id, data)
    }
}

/// Raw LIN frame logger using ASAM MDF4 Bus Logging format.
pub struct RawLinLogger {
    /// Source name for metadata and the group name.
    pub source_name: String,
    /// Buffered frames, not yet written.
    pub buffer: Vec<TimestampedFrame<LinFrame>>,
    /// The writer of the channel group, created by the first flush.
    pub writer: Option<BusLogWriter>,
}

impl RawLinLogger {
    /// The writer, once the first flush has created it.
    pub open spec fn written(&self) -> Option<BusLogWriterView> {
        match self.writer {
            Some(w) => Some(w@),
            None => None,
        }
    }

    /// The logger is consistent: its writer, if any, holds records of 12-byte frames.
    pub open spec fn wf(&self) -> bool {
        match self.writer {
            Some(w) => w.wf() && w@.frame_size == LIN_FRAME_SIZE,
            None => true,
        }
    }

    /// A logger with nothing buffered or written.
    pub open spec fn is_fresh(&self, name: Seq<char>) -> bool {
        &&& self.wf()
        &&& self.source_name@ == name
        &&& self.buffer@.len() == 0
        &&& self.written() is None
    }

    /// The logger after `old` took one more frame.
    pub open spec fn logged(&self, old: &Self, timestamp_us: u64, frame: LinFrameView) -> bool {
        &&& self.wf()
        &&& self.source_name == old.source_name
        &&& self.written() == old.written()
        &&& self.buffer@.len() == old.buffer@.len() + 1
        &&& self.buffer@.drop_last() == old.buffer@
        &&& self.buffer@.last().timestamp_us == timestamp_us
        &&& self.buffer@.last().frame@ == frame
    }

    /// Create a new raw LIN logger with in-memory output.
    pub fn new() -> (r: Result<Self, MdfError>)
        ensures
            r matches Ok(l) && l.is_fresh("LIN"@),
    {
        Self::with_source_name("LIN")
    }

    /// Create a new raw LIN logger with a custom source name.
    pub fn with_source_name(source_name: &str) -> (r: Result<Self, MdfError>)
        ensures
            r matches Ok(l) && l.is_fresh(source_name@),
    {
        Ok(Self { source_name: source_name.to_owned(), buffer: Vec::new(), writer: None })
    }

    /// Create a new raw LIN logger with a custom bus name.
    pub fn with_bus_name(bus_name: &str) -> (r: Result<Self, MdfError>)
        ensures
            r matches Ok(l) && l.is_fresh(bus_name@),
    {
        Self::with_source_name(bus_name)
    }

    /// Create a new raw LIN logger; the capacity is a hint for the output size.
    pub fn with_capacity(capacity: usize) -> (r: Result<Self, MdfError>)
        ensures
            r matches Ok(l) && l.is_fresh("LIN"@),
    {
        Ok(
            Self {
                source_name: "LIN".to_owned(),
                buffer: Vec::with_capacity(capacity / LIN_FRAME_SIZE),
                writer: None,
            },
        )
    }

    /// Set the source name for metadata (used when the first flush creates the group).
    pub fn set_source_name(&mut self, name: &str)
        ensures
            final(self).source_name@ == name@,
            final(self).buffer@ == old(self).buffer@,
            final(self).written() == old(self).written(),
            final(self).wf() == old(self).wf(),
    {
        self.source_name = name.to_owned();
    }

    /// Set the LIN bus name for source metadata.
    pub fn set_bus_name(&mut self, name: &str)
        ensures
            final(self).source_name@ == name@,
            final(self).buffer@ == old(self).buffer@,
            final(self).written() == old(self).written(),
            final(self).wf() == old(self).wf(),
    {
        self.set_source_name(name);
    }

    /// Log a LinFrame struct (takes ownership). Always returns `true`.
    pub fn log_frame(&mut self, timestamp_us: u64, frame: LinFrame) -> (r: bool)
        requires
            old(self).wf(),
        ensures
            r,
            final(self).logged(old(self), timestamp_us, frame@),
    {
        self.buffer.push(TimestampedFrame::new(timestamp_us, frame));
        assert(self.buffer@.drop_last() =~= old(self).buffer@);
        true
    }

    /// Log a LIN frame with enhanced checksum (LIN 2.x).
    pub fn log(&mut self, id: u8, timestamp_us: u64, data: &[u8]) -> (r: bool)
        requires
            old(self).wf(),
        ensures
            r,
            final(self).logged(old(self), timestamp_us, spec_enhanced_lin(id, data@)),
    {
        self.log_frame(timestamp_us, LinFrame::with_enhanced_checksum(id, data))
    }

    /// Log a LIN frame with classic checksum (LIN 1.x).
    pub fn log_classic(&mut self, id: u8, timestamp_us: u64, data: &[u8]) -> (r: bool)
        requires
            old(self).wf(),
        ensures
            r,
            final(self).logged(old(self), timestamp_us, spec_classic_lin(id, data@)),
    {
        self.log_frame(timestamp_us, LinFrame::with_classic_checksum(id, data))
    }

    /// Log a transmitted LIN frame (enhanced checksum).
    pub fn log_tx(&mut self, id: u8, timestamp_us: u64, data: &[u8]) -> (r: bool)
        requires
            old(self).wf(),
        ensures
            r,
            final(self).logged(old(self), timestamp_us, LinFrameView {
                flags: LinFlags::ENHANCED_CHECKSUM | LinFlags::TX,
                ..spec_enhanced_lin(id, data@)
            }),
    {
        self.log_frame(timestamp_us, LinFrame::with_enhanced_checksum(id, data).with_tx())
    }

    /// Log a received LIN frame (enhanced checksum).
    pub fn log_rx(&mut self, id: u8, timestamp_us: u64, data: &[u8]) -> (r: bool)
        requires
            old(self).wf(),
        ensures
            r,
            final(self).logged(old(self), timestamp_us, LinFrameView {
                flags: LinFlags::ENHANCED_CHECKSUM & !LinFlags::TX,
                ..spec_enhanced_lin(id, data@)
            }),
    {
        self.log_frame(timestamp_us, LinFrame::with_enhanced_checksum(id, data).with_rx())
    }

    /// Log a LinFrame struct by reference (copies the frame).
    pub fn log_frame_ref(&mut self, timestamp_us: u64, frame: &LinFrame) -> (r: bool)
        requires
            old(self).wf(),
        ensures
            r,
            final(self).logged(old(self), timestamp_us, frame@),
    {
        let copy = LinFrame {
            id: frame.id,
            data: frame.data,
            data_len: frame.data_len,
            flags: frame.flags,
            checksum: frame.checksum,
        };
        self.log_frame(timestamp_us, copy)
    }

    /// Log a LIN frame with explicit flags and checksum.
    pub fn log_with_flags(
        &mut self,
        id: u8,
        timestamp_us: u64,
        data: &[u8],
        flags: LinFlags,
        checksum: u8,
    ) -> (r: bool)
        requires
            old(self).wf(),
        ensures
            r,
            final(self).logged(old(self), timestamp_us, LinFrameView {
                flags: flags.bits(),
                checksum,
                ..spec_new_lin(id, data@)
            }),
    {
        let mut frame = LinFrame::new(id, data);
        frame.flags = flags;
        frame.checksum = checksum;
        self.log_frame(timestamp_us, frame)
    }

    /// The writer the first flush creates: group `{source}_LIN_Frame`, channel
    /// `LIN_Frame`, 12-byte frames, nothing written.
    pub open spec fn spec_initial_writer(source: Seq<char>) -> BusLogWriterView {
        BusLogWriterView {
            group_name: encode_utf8(source) + lin_group_suffix(),
            data_name: lin_channel_name(),
            frame_size: LIN_FRAME_SIZE as nat,
            records: Seq::empty(),
            count: 0,
        }
    }

    /// The writer before a flush: the existing one, or the one the flush creates.
    pub open spec fn writer_before_flush(&self) -> BusLogWriterView {
        match self.written() {
            Some(w) => w,
            None => Self::spec_initial_writer(self.source_name@),
        }
    }

    /// Flush buffered frames to the writer: they become records and the buffer empties.
    /// Fails, changing nothing, when the record counter would overflow.
    pub fn flush(&mut self) -> (r: Result<(), MdfError>)
        requires
            old(self).wf(),
        ensures
            final(self).wf(),
            final(self).source_name == old(self).source_name,
            r is Err <==> old(self).writer_before_flush().count + old(self).buffer@.len() > u64::MAX,
            r is Err ==> r == Err::<(), MdfError>(MdfError::RecordCountOverflow) && final(self).buffer@
                == old(self).buffer@ && final(self).written() == old(self).written(),
            r is Ok ==> final(self).buffer@.len() == 0 && final(self).written() == Some(BusLogWriterView {
                records: old(self).writer_before_flush().records + spec_lin_records(old(self).buffer@),
                count: (old(self).writer_before_flush().count + old(self).buffer@.len()) as u64,
                ..old(self).writer_before_flush()
            }),
    {
        let n = self.buffer.len();
        let existing: u64 = match &self.writer {
            Some(w) => w.record_count(),
            None => 0,
        };
        if existing > u64::MAX - n as u64 {
            return Err(MdfError::RecordCountOverflow);
        }
        let mut w = match self.writer.take() {
            Some(w) => w,
            None => {
                let mut name: Vec<u8> = Vec::new();
                push_slice(&mut name, self.source_name.as_str().as_bytes());
                let suffix: [u8; 10] = [0x5F, 0x4C, 0x49, 0x4E, 0x5F, 0x46, 0x72, 0x61, 0x6D, 0x65];
                push_slice(&mut name, &suffix);
                let chan: [u8; 9] = [0x4C, 0x49, 0x4E, 0x5F, 0x46, 0x72, 0x61, 0x6D, 0x65];
                let mut cname: Vec<u8> = Vec::new();
                push_slice(&mut cname, &chan);
                assert(suffix@ =~= lin_group_suffix());
                assert(chan@ =~= lin_channel_name());
                BusLogWriter::new(name, cname, LIN_FRAME_SIZE)
            },
        };
        let ghost w0 = w@;
        let mut i: usize = 0;
        while i < n
            invariant
                n == self.buffer@.len(),
                self.buffer@ == old(self).buffer@,
                i <= n,
                w.wf(),
                w@.frame_size == LIN_FRAME_SIZE,
                w0.count + n <= u64::MAX,
                w@ == (BusLogWriterView {
                    records: w0.records + spec_lin_records(self.buffer@.take(i as int)),
                    count: (w0.count + i) as u64,
                    ..w0
                }),
            decreases n - i,
        {
            let entry = &self.buffer[i];
            let bytes = fit_to(entry.frame.to_bytes(), LIN_FRAME_SIZE);
            let res = w.write_record(entry.timestamp_us, bytes.as_slice());
            assert(self.buffer@.take(i + 1).drop_last() =~= self.buffer@.take(i as int));
            assert(w0.records + spec_lin_records(self.buffer@.take(i + 1)) =~= w0.records
                + spec_lin_records(self.buffer@.take(i as int)) + le64(entry.timestamp_us)
                + bytes@);
            i = i + 1;
        }
        assert(self.buffer@.take(n as int) =~= self.buffer@);
        self.buffer.clear();
        self.writer = Some(w);
        Ok(())
    }

    /// Flush and write the whole MDF file, returning its bytes.
    pub fn finalize(self) -> (r: Result<Vec<u8>, MdfError>)
        requires
            self.wf(),
        ensures
            ({
                let w = BusLogWriterView {
                    records: self.writer_before_flush().records + spec_lin_records(self.buffer@),
                    count: (self.writer_before_flush().count + self.buffer@.len()) as u64,
                    ..self.writer_before_flush()
                };
                &&& self.writer_before_flush().count + self.buffer@.len() > u64::MAX ==> r
                    == Err::<Vec<u8>, MdfError>(MdfError::RecordCountOverflow)
                &&& self.writer_before_flush().count + self.buffer@.len() <= u64::MAX ==> {
                    &&& r is Err <==> spec_file_len(w.group_name, w.data_name, w.records) > u64::MAX
                    &&& r is Err ==> r == Err::<Vec<u8>, MdfError>(MdfError::FileTooLarge)
                    &&& r matches Ok(bytes) ==> bytes@ == spec_bus_file(w)
                }
            }),
    {
        let mut s = self;
        s.flush()?;
        match s.writer {
            Some(w) => w.finalize(),
            None => Err(MdfError::FileTooLarge),
        }
    }

    /// Get the total number of frames buffered.
    pub fn total_frame_count(&self) -> (r: usize)
        ensures
            r == self.buffer@.len(),
    {
        self.buffer.len()
    }

    /// Get the number of frames buffered for an ID (masked to 6 bits).
    pub fn frame_count_for_id(&self, id: u8) -> (r: usize)
        ensures
            r == self.buffer@.filter(|e: TimestampedFrame<LinFrame>| e.frame.id == id & MAX_LIN_ID).len(),
    {
        let ghost p = |e: TimestampedFrame<LinFrame>| e.frame.id == id & MAX_LIN_ID;
        let n = self.buffer.len();
        let mut c: usize = 0;
        let mut i: usize = 0;
        while i < n
            invariant
                n == self.buffer@.len(),
                i <= n,
                c <= i,
                c == self.buffer@.take(i as int).filter(p).len(),
                p == (|e: TimestampedFrame<LinFrame>| e.frame.id == id & MAX_LIN_ID),
            decreases n - i,
        {
            proof {
                assert(self.buffer@.take(i + 1) =~= self.buffer@.take(i as int).push(self.buffer@[i as int]));
                self.buffer@.take(i as int).lemma_filter_len_push(p, self.buffer@[i as int]);
            }
            let e = &self.buffer[i];
            if e.frame.id == id & MAX_LIN_ID {
                c = c + 1;
            }
            i = i + 1;
        }
        assert(self.buffer@.take(n as int) =~= self.buffer@);
        c
    }

    /// Get count of transmitted frames.
    pub fn tx_frame_count(&self) -> (r: usize)
        ensures
            r == self.buffer@.filter(|e: TimestampedFrame<LinFrame>| e.frame.flags.has(LinFlags::TX)).len(),
    {
        let ghost p = |e: TimestampedFrame<LinFrame>| e.frame.flags.has(LinFlags::TX);
        let n = self.buffer.len();
        let mut c: usize = 0;
        let mut i: usize = 0;
        while i < n
            invariant
                n == self.buffer@.len(),
                i <= n,
                c <= i,
                c == self.buffer@.take(i as int).filter(p).len(),
                p == (|e: TimestampedFrame<LinFrame>| e.frame.flags.has(LinFlags::TX)),
            decreases n - i,
        {
            proof {
                assert(self.buffer@.take(i + 1) =~= self.buffer@.take(i as int).push(self.buffer@[i as int]));
                self.buffer@.take(i as int).lemma_filter_len_push(p, self.buffer@[i as int]);
            }
            let e = &self.buffer[i];
            if e.frame.flags.is_tx() {
                c = c + 1;
            }
            i = i + 1;
        }
        assert(self.buffer@.take(n as int) =~= self.buffer@);
        c
    }

    /// Get count of received frames.
    pub fn rx_frame_count(&self) -> (r: usize)
        ensures
            r == self.buffer@.filter(|e: TimestampedFrame<LinFrame>| !e.frame.flags.has(LinFlags::TX)).len(),
    {
        let ghost p = |e: TimestampedFrame<LinFrame>| !e.frame.flags.has(LinFlags::TX);
        let n = self.buffer.len();
        let mut c: usize = 0;
        let mut i: usize = 0;
        while i < n
            invariant
                n == self.buffer@.len(),
                i <= n,
                c <= i,
                c == self.buffer@.take(i as int).filter(p).len(),
                p == (|e: TimestampedFrame<LinFrame>| !e.frame.flags.has(LinFlags::TX)),
            decreases n - i,
        {
            proof {
                assert(self.buffer@.take(i + 1) =~= self.buffer@.take(i as int).push(self.buffer@[i as int]));
                self.buffer@.take(i as int).lemma_filter_len_push(p, self.buffer@[i as int]);
            }
            let e = &self.buffer[i];
            if e.frame.flags.is_rx() {
                c = c + 1;
            }
            i = i + 1;
        }
        assert(self.buffer@.take(n as int) =~= self.buffer@);
        c
    }

    /// Get count of frames with errors.
    pub fn error_frame_count(&self) -> (r: usize)
        ensures
            r == self.buffer@.filter(|e: TimestampedFrame<LinFrame>| e.frame.flags.has(LinFlags::error_mask())).len(),
    {
        let ghost p = |e: TimestampedFrame<LinFrame>| e.frame.flags.has(LinFlags::error_mask());
        let n = self.buffer.len();
        let mut c: usize = 0;
        let mut i: usize = 0;
        while i < n
            invariant
                n == self.buffer@.len(),
                i <= n,
                c <= i,
                c == self.buffer@.take(i as int).filter(p).len(),
                p == (|e: TimestampedFrame<LinFrame>| e.frame.flags.has(LinFlags::error_mask())),
            decreases n - i,
        {
            proof {
                assert(self.buffer@.take(i + 1) =~= self.buffer@.take(i as int).push(self.buffer@[i as int]));
                self.buffer@.take(i as int).lemma_filter_len_push(p, self.buffer@[i as int]);
            }
            let e = &self.buffer[i];
            if e.frame.flags.has_error() {
                c = c + 1;
            }
            i = i + 1;
        }
        assert(self.buffer@.take(n as int) =~= self.buffer@);
        c
    }

    /// Get the number of distinct IDs among the buffered frames.
    pub fn unique_id_count(&self) -> (r: usize)
        ensures
            r == self.buffer@.map_values(|e: TimestampedFrame<LinFrame>| e.frame.id).to_set().len(),
    {
        let ghost f = |e: TimestampedFrame<LinFrame>| e.frame.id;
        let n = self.buffer.len();
        let mut seen: Vec<u8> = Vec::new();
        let mut i: usize = 0;
        while i < n
            invariant
                n == self.buffer@.len(),
                i <= n,
                seen@.no_duplicates(),
                seen@.to_set() == self.buffer@.take(i as int).map_values(f).to_set(),
                f == (|e: TimestampedFrame<LinFrame>| e.frame.id),
            decreases n - i,
        {
            let x = self.buffer[i].frame.id;
            proof {
                assert(self.buffer@.take(i + 1).map_values(f) =~= self.buffer@.take(i as int).map_values(f) + seq![x]);
                Seq::lemma_to_set_insert_commutes(self.buffer@.take(i as int).map_values(f), x);
            }
            if !contains_u8(&seen, x) {
                proof {
                    assert(seen@.push(x) =~= seen@ + seq![x]);
                    Seq::lemma_to_set_insert_commutes(seen@, x);
                }
                seen.push(x);
            } else {
                proof {
                    assert(seen@.to_set().contains(x));
                    assert(seen@.to_set().insert(x) =~= seen@.to_set());
                }
            }
            i = i + 1;
        }
        assert(self.buffer@.take(n as int) =~= self.buffer@);
        proof {
            seen@.unique_seq_to_set();
        }
        seen.len()
    }
}

/// Whether `x` occurs in `v`.
pub(crate) fn contains_u8(v: &Vec<u8>, x: u8) -> (r: bool)
    ensures
        r == v@.contains(x),
{
    let mut i: usize = 0;
    while i < v.len()
        invariant
            i <= v@.len(),
            forall|j: int| 0 <= j < i ==> v@[j] != x,
        decreases v@.len() - i,
    {
        if v[i] == x {
            return true;
        }
        i = i + 1;
    }
    false
}

} // verus!

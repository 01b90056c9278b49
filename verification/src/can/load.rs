//! Loading the frames of an existing bus-logging file into a raw CAN logger: the
//! `CAN_DataFrame` records of each channel group that has a `Timestamp` channel.

use vstd::prelude::*;
use crate::bytes::copy_range;
use crate::error::MdfError;
use crate::index::{IndexedChannel, MdfIndex};
use crate::reader::{exact_source, read_follows, read_u32_at, u32_at, ByteRangeReader};
use crate::scan::{lemma_prepend_twice, prepend};
use crate::channel_values::spec_channel_values;
use crate::text::{name_is, name_matches};
use crate::values::{opt_value, opt_values, DecodedValue, DecodedValueView};
use super::fd::{dlc_to_len, lemma_fd_flags_roundtrip, spec_dlc_to_len, FdFlags};
use crate::bytes::{le32, lemma_le32_roundtrip, spec_fit};
use super::raw_frame::{spec_prefix, RawFrame, RawFrameView};
use super::raw_logger::RawCanLogger;

verus! {

/// The frame stored as `CAN_DataFrame` bytes `b` at `timestamp_us`: the identifier
/// (bit 31 marks an extended one), the DLC, for more than 8 data bytes the FD flags
/// byte, then the data (as many bytes as the DLC gives, as far as there are). A frame
/// with more than 8 data bytes or with a flag set is a CAN FD frame. Nothing for fewer
/// than 5 bytes.
pub open spec fn spec_frame_from_dataframe(timestamp_us: u64, b: Seq<u8>) -> Option<RawFrameView> {
    if b.len() < 5 {
        None
    } else {
        let raw = u32_at(b, 0);
        let dlc = b[4];
        let dl = if spec_dlc_to_len(dlc) < b.len() - 5 { spec_dlc_to_len(dlc) as int } else { b.len() - 5 };
        let with_flags = dl > 8 && b.len() > 6;
        let flags = if with_flags { FdFlags::spec_from_byte(b[5]) } else { FdFlags::spec_from_byte(0) };
        let start: int = if with_flags { 6 } else { 5 };
        let n = if dl < b.len() - start { dl } else { b.len() - start };
        let data = b.subrange(start, start + n);
        let is_fd = dl > 8 || flags.spec_brs() || flags.spec_esi();
        Some(RawFrameView {
            timestamp_us,
            can_id: raw & 0x1FFF_FFFF,
            dlc,
            data: if is_fd { spec_prefix(data, 64) } else { spec_prefix(data, 8) },
            fd_flags: if is_fd { flags } else { FdFlags::spec_from_byte(0) },
            is_extended: raw & 0x8000_0000 != 0,
            is_fd,
        })
    }
}

/// The frame stored as `CAN_DataFrame` bytes, if there are at least 5 of them.
pub fn frame_from_dataframe(timestamp_us: u64, b: &[u8]) -> (r: Option<RawFrame>)
    ensures
        match r {
            Some(f) => spec_frame_from_dataframe(timestamp_us, b@) == Some(f@),
            None => spec_frame_from_dataframe(timestamp_us, b@) is None,
        },
{
    if b.len() < 5 {
        return None;
    }
    let raw = read_u32_at(b, 0);
    let dlc = b[4];
    let l = dlc_to_len(dlc);
    let rest = b.len() - 5;
    let dl = if l < rest { l } else { rest };
    let with_flags = dl > 8 && b.len() > 6;
    let flags = if with_flags { FdFlags::from_byte(b[5]) } else { FdFlags::from_byte(0) };
    let start: usize = if with_flags { 6 } else { 5 };
    let avail = b.len() - start;
    let n = if dl < avail { dl } else { avail };
    let data = copy_range(b, start, start + n);
    let is_fd = dl > 8 || flags.brs() || flags.esi();
    let ext = raw & 0x8000_0000 != 0;
    let id = raw & 0x1FFF_FFFF;
    let f = if is_fd {
        RawFrame::new_fd(timestamp_us, id, dlc, data.as_slice(), flags, ext)
    } else {
        RawFrame::new_classic(timestamp_us, id, dlc, data.as_slice(), ext)
    };
    Some(f)
}

/// The position of the last channel called `q`.
pub open spec fn spec_last_named(chs: Seq<IndexedChannel>, q: Seq<char>) -> Option<int>
    decreases chs.len(),
{
    if chs.len() == 0 {
        None
    } else if name_is(chs.last().name, q) {
        Some(chs.len() - 1)
    } else {
        spec_last_named(chs.drop_last(), q)
    }
}

/// The position of the last channel called `q`.
fn last_named(chs: &Vec<IndexedChannel>, q: &str) -> (r: Option<usize>)
    ensures
        match r {
            Some(i) => spec_last_named(chs@, q@) == Some(i as int),
            None => spec_last_named(chs@, q@) is None,
        },
{
    let mut r: Option<usize> = None;
    let mut i: usize = 0;
    while i < chs.len()
        invariant
            i <= chs@.len(),
            match r {
                Some(k) => spec_last_named(chs@.take(i as int), q@) == Some(k as int),
                None => spec_last_named(chs@.take(i as int), q@) is None,
            },
        decreases chs@.len() - i,
    {
        assert(chs@.take(i + 1).drop_last() =~= chs@.take(i as int));
        if name_matches(&chs[i].name, q) {
            r = Some(i);
        }
        i = i + 1;
    }
    assert(chs@.take(chs@.len() as int) =~= chs@);
    r
}

/// The frame of one record: its timestamp in microseconds and its `CAN_DataFrame`
/// bytes; nothing when either is missing or of another kind.
pub open spec fn spec_pair_frame(ts: Option<DecodedValueView>, df: Option<DecodedValueView>) -> Seq<RawFrameView> {
    match ts {
        Some(DecodedValueView::UnsignedInteger(us)) => match df {
            Some(DecodedValueView::ByteArray(b)) => match spec_frame_from_dataframe(us, b) {
                Some(f) => seq![f],
                None => Seq::empty(),
            },
            _ => Seq::empty(),
        },
        _ => Seq::empty(),
    }
}

/// The frames of the first `n` records.
pub open spec fn spec_pair_frames(tsv: Seq<Option<DecodedValueView>>, dfv: Seq<Option<DecodedValueView>>, n: int) -> Seq<RawFrameView>
    decreases n,
{
    if n <= 0 {
        Seq::empty()
    } else {
        spec_pair_frames(tsv, dfv, n - 1) + spec_pair_frame(tsv[n - 1], dfv[n - 1])
    }
}

/// The frames that group `gi` holds: when it has channels `Timestamp` and
/// `CAN_DataFrame` (the last of each name), the frames of the records that both have.
pub open spec fn spec_group_frames(idx: MdfIndex, gi: int, c: Seq<u8>) -> Result<Seq<RawFrameView>, MdfError> {
    let chs = idx.channel_groups@[gi].channels@;
    match spec_last_named(chs, "Timestamp"@) {
        Some(t) => match spec_last_named(chs, "CAN_DataFrame"@) {
            Some(d) => match spec_channel_values(idx, gi, t, c) {
                Err(e) => Err(e),
                Ok(tsv) => match spec_channel_values(idx, gi, d, c) {
                    Err(e) => Err(e),
                    Ok(dfv) => Ok(spec_pair_frames(tsv, dfv, if tsv.len() < dfv.len() { tsv.len() as int } else { dfv.len() as int })),
                },
            },
            None => Ok(Seq::empty()),
        },
        None => Ok(Seq::empty()),
    }
}

/// The frames of groups `gi..`.
pub open spec fn spec_frames_from(idx: MdfIndex, gi: int, c: Seq<u8>) -> Result<Seq<RawFrameView>, MdfError>
    decreases idx.channel_groups@.len() - gi,
{
    if gi < 0 || gi >= idx.channel_groups@.len() {
        Ok(Seq::empty())
    } else {
        match spec_group_frames(idx, gi, c) {
            Err(e) => Err(e),
            Ok(fs) => prepend(fs, spec_frames_from(idx, gi + 1, c)),
        }
    }
}

/// Which frame types occur among `buf`, by position.
pub open spec fn spec_marks(buf: Seq<RawFrame>) -> Seq<bool> {
    Seq::new(6, |k: int| exists|i: int| 0 <= i < buf.len() && (#[trigger] buf[i]).spec_frame_type().spec_index() == k)
}

/// The views of frames.
pub open spec fn frame_views(buf: Seq<RawFrame>) -> Seq<RawFrameView> {
    buf.map_values(|f: RawFrame| f@)
}

impl RawCanLogger {
    /// Whether the logger holds exactly the loaded frames `buf` and nothing written.
    pub open spec fn loaded(&self, name: Seq<char>) -> bool {
        &&& self.wf()
        &&& self.bus_name@ == name
        &&& self.groups is None
        &&& self.present@ == spec_marks(self.buffer@)
    }

    /// Appends the frames of the first `n` records.
    fn load_pairs(&mut self, tsv: &Vec<Option<DecodedValue>>, dfv: &Vec<Option<DecodedValue>>, n: usize)
        requires
            old(self).wf(),
            old(self).groups is None,
            old(self).present@ == spec_marks(old(self).buffer@),
            n <= tsv@.len(),
            n <= dfv@.len(),
        ensures
            final(self).wf(),
            final(self).groups is None,
            final(self).bus_name == old(self).bus_name,
            final(self).present@ == spec_marks(final(self).buffer@),
            frame_views(final(self).buffer@) == frame_views(old(self).buffer@) + spec_pair_frames(opt_values(tsv@), opt_values(dfv@), n as int),
    {
        let ghost start = frame_views(self.buffer@);
        let mut k: usize = 0;
        while k < n
            invariant
                k <= n,
                n <= tsv@.len(),
                n <= dfv@.len(),
                self.wf(),
                self.groups is None,
                self.bus_name == old(self).bus_name,
                self.present@ == spec_marks(self.buffer@),
                start == frame_views(old(self).buffer@),
                frame_views(self.buffer@) == start + spec_pair_frames(opt_values(tsv@), opt_values(dfv@), k as int),
            decreases n - k,
        {
            let ghost before = frame_views(self.buffer@);
            let ghost pair = spec_pair_frame(opt_value(tsv@[k as int]), opt_value(dfv@[k as int]));
            assert(opt_values(tsv@)[k as int] == opt_value(tsv@[k as int]));
            assert(opt_values(dfv@)[k as int] == opt_value(dfv@[k as int]));
            match &tsv[k] {
                Some(DecodedValue::UnsignedInteger(us)) => match &dfv[k] {
                    Some(DecodedValue::ByteArray(b)) => match frame_from_dataframe(*us, b.as_slice()) {
                        Some(f) => {
                            let ghost fv = f@;
                            let ghost old_buf = self.buffer@;
                            self.push_frame(f);
                            proof {
                                assert(frame_views(self.buffer@) =~= frame_views(old_buf).push(fv));
                                assert(pair == seq![fv]);
                                lemma_marks_push(old_buf, self.buffer@.last());
                            }
                        },
                        None => {},
                    },
                    _ => {},
                },
                _ => {},
            }
            assert(frame_views(self.buffer@) =~= before + pair);
            k = k + 1;
        }
    }

    /// Create a logger holding the frames of an existing bus-logging file, read through
    /// its index and a byte-range reader, to append to: from every channel group with a
    /// `Timestamp` and a `CAN_DataFrame` channel, the frames of its records, in order.
    /// Timestamps are taken as unsigned microseconds; a record with a timestamp of
    /// another kind is left out.
    pub fn from_index_with_source_name<R: ByteRangeReader<Error = MdfError>>(
        index: &MdfIndex,
        reader: &mut R,
        source_name: &str,
    ) -> (r: Result<RawCanLogger, MdfError>)
        ensures
            final(reader).contents() == old(reader).contents(),
            final(reader).reliable() == old(reader).reliable(),
            read_follows(r, spec_frames_from(*index, 0, old(reader).contents()), |l: RawCanLogger| frame_views(l.buffer@), old(reader).reliable(), exact_source(*old(reader))),
            r matches Ok(l) ==> l.loaded(source_name@),
    {
        let ghost c = reader.contents();
        let ghost rel = reader.reliable();
        let mut logger = match RawCanLogger::with_source_name(source_name) {
            Ok(l) => l,
            Err(e) => {
                return Err(e);
            },
        };
        proof {
            assert(spec_marks(logger.buffer@) =~= seq![false, false, false, false, false, false]);
            assert(frame_views(logger.buffer@) =~= Seq::<RawFrameView>::empty());
        }
        let n = index.channel_groups.len();
        let mut gi: usize = 0;
        while gi < n
            invariant
                reader.contents() == c,
                reader.reliable() == rel,
                c == old(reader).contents(),
                rel == old(reader).reliable(),
                n == index.channel_groups@.len(),
                gi <= n,
                logger.loaded(source_name@),
                spec_frames_from(*index, 0, c) == prepend(frame_views(logger.buffer@), spec_frames_from(*index, gi as int, c)),
            decreases n - gi,
        {
            let chs = &index.channel_groups[gi].channels;
            let t = last_named(chs, "Timestamp");
            let d = last_named(chs, "CAN_DataFrame");
            let ghost before = frame_views(logger.buffer@);
            match t {
                Some(ti) => match d {
                    Some(di) => {
                        let tsv = index.read_channel_values(gi, ti, reader)?;
                        let dfv = index.read_channel_values(gi, di, reader)?;
                        let m = if tsv.len() < dfv.len() { tsv.len() } else { dfv.len() };
                        logger.load_pairs(&tsv, &dfv, m);
                        proof {
                            lemma_prepend_twice(before, spec_pair_frames(opt_values(tsv@), opt_values(dfv@), m as int), spec_frames_from(*index, gi + 1, c));
                        }
                    },
                    None => {
                        assert(before + Seq::<RawFrameView>::empty() =~= before);
                    },
                },
                None => {
                    assert(before + Seq::<RawFrameView>::empty() =~= before);
                },
            }
            gi = gi + 1;
        }
        assert(frame_views(logger.buffer@) + Seq::<RawFrameView>::empty() =~= frame_views(logger.buffer@));
        Ok(logger)
    }
}

/// Marking one more frame marks its type.
pub proof fn lemma_marks_push(old_buf: Seq<RawFrame>, f: RawFrame)
    ensures
        spec_marks(old_buf.push(f)) == spec_marks(old_buf).update(f.spec_frame_type().spec_index(), true),
{
    let nb = old_buf.push(f);
    let k0 = f.spec_frame_type().spec_index();
    assert forall|k: int| 0 <= k < 6 implies spec_marks(nb)[k] == spec_marks(old_buf).update(k0, true)[k] by {
        if k == k0 {
            assert(nb[old_buf.len() as int] == f);
        } else {
            if exists|i: int| 0 <= i < nb.len() && (#[trigger] nb[i]).spec_frame_type().spec_index() == k {
                let i = choose|i: int| 0 <= i < nb.len() && (#[trigger] nb[i]).spec_frame_type().spec_index() == k;
                assert(i < old_buf.len());
                assert(old_buf[i] == nb[i]);
            }
            if exists|i: int| 0 <= i < old_buf.len() && (#[trigger] old_buf[i]).spec_frame_type().spec_index() == k {
                let i = choose|i: int| 0 <= i < old_buf.len() && (#[trigger] old_buf[i]).spec_frame_type().spec_index() == k;
                assert(old_buf[i] == nb[i]);
            }
        }
    }
    assert(spec_marks(nb) =~= spec_marks(old_buf).update(k0, true));
}

/// Whether a frame's `CAN_DataFrame` bytes hold all of it: an identifier below 2^29;
/// for a classic frame at most 8 data bytes with the DLC their count and no flags; for
/// a CAN FD frame more than 8 data bytes, exactly as many as its DLC stands for.
pub open spec fn stored_whole(f: RawFrame) -> bool {
    &&& f.can_id <= 0x1FFF_FFFF
    &&& if f.is_fd {
        8 < f.data@.len() <= 64 && spec_dlc_to_len(f.dlc) == f.data@.len()
    } else {
        f.data@.len() <= 8 && f.dlc == f.data@.len() && f.fd_flags == FdFlags::spec_from_byte(0)
    }
}

/// Reading back the `CAN_DataFrame` bytes of a frame gives the frame, when the bytes
/// hold all of it. (CAN FD frames of at most 8 bytes are stored without their FD flags,
/// and read back as classic frames.)
pub proof fn lemma_dataframe_roundtrip(f: RawFrame)
    requires
        stored_whole(f),
    ensures
        spec_frame_from_dataframe(f.timestamp_us, f.spec_dataframe_bytes()) == Some(f@),
{
    let t = f.spec_frame_type();
    let id = f.spec_stored_id();
    let flag_bytes: Seq<u8> = if t.spec_is_large() { seq![f.fd_flags.spec_to_byte()] } else { Seq::empty() };
    let head = le32(id) + seq![f.dlc] + flag_bytes;
    let b = f.spec_dataframe_bytes();
    let size = t.spec_frame_size();
    assert(b == spec_fit(head + f.data@, size));
    assert(head.len() + f.data@.len() <= size);
    assert(b =~= head + f.data@ + Seq::new((size - head.len() - f.data@.len()) as nat, |i: int| 0u8));
    lemma_le32_roundtrip(id);
    assert(b.subrange(0, 4) =~= le32(id));
    assert(u32_at(b, 0) == id);
    let c = f.can_id;
    assert(c <= 0x1FFF_FFFF ==> (c | 0x8000_0000u32) & 0x1FFF_FFFF == c && (c | 0x8000_0000u32) & 0x8000_0000 != 0
        && c & 0x1FFF_FFFF == c && c & 0x8000_0000 == 0) by (bit_vector);
    lemma_fd_flags_roundtrip(f.fd_flags, 0);
    lemma_fd_flags_roundtrip(FdFlags::spec_from_byte(0), 0);
    assert(0u8 & 0x03 == 0 && 0u8 & 0x01 == 0 && 0u8 & 0x02 == 0) by (bit_vector);
    assert(FdFlags::spec_from_byte(0).spec_to_byte() == 0);
    assert(!FdFlags::spec_from_byte(0).spec_brs() && !FdFlags::spec_from_byte(0).spec_esi());
    let r = spec_frame_from_dataframe(f.timestamp_us, b).unwrap();
    let start: int = if t.spec_is_large() { 6 } else { 5 };
    assert(b.subrange(start, start + f.data@.len()) =~= f.data@);
    assert(spec_prefix(f.data@, 64) == f.data@);
    assert(spec_prefix(f.data@, 8) == f.data@ || f.is_fd);
    assert(r.can_id == f.can_id);
    assert(r.is_extended == f.is_extended);
    assert(r.dlc == f.dlc);
    assert(r.is_fd == f.is_fd);
    assert(r.fd_flags == f.fd_flags);
    assert(r.data == f.data@);
    assert(r == f@);
}

} // verus!

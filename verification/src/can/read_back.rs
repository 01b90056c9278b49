//! What a raw CAN logger's file gives back: loading the file that a logger writes
//! returns the frames it logged, grouped by frame type.

use vstd::prelude::*;
use crate::bytes::{le64, lemma_le64_roundtrip};
use crate::reader::u64_at;
use crate::error::MdfError;
use crate::index::MdfIndex;
use crate::text::spec_utf8_lossy;
use vstd::utf8::{
    decode_utf8, encode_utf8, encode_utf8_decode_utf8, encode_utf8_valid_utf8, is_ascii_chars,
    is_ascii_chars_encode_utf8, valid_utf8,
};
use crate::scan::{prepend, spec_index};
use super::raw_frame::{all_frame_types, can_dataframe_name, FrameType, RawFrame, RawFrameView};
use super::raw_logger::{
    spec_can_records, spec_initial_writer, spec_present_types, spec_type_count, spec_written,
    RawCanLogger,
};
use super::load::{
    frame_views, lemma_dataframe_roundtrip, lemma_marks_push, spec_frames_from, spec_marks, spec_group_frames, spec_last_named,
    spec_pair_frames, stored_whole,
};
use crate::log_index::{
    all_readable, lemma_index_of_log_file, lemma_indexed_groups_len, lemma_read_back_records,
    lemma_text_len_padded, no_zero, readable_group, record_bytes, spec_frame_values,
    spec_indexed_groups, spec_time_values, stored_text,
};
use crate::writer::{spec_log_file, spec_log_len, timestamp_name, BusLogWriterView, FIRST_SEGMENT};

verus! {

/// The frames of `buf` of type `t`, in the order logged.
pub open spec fn spec_frames_of_type(buf: Seq<RawFrame>, t: FrameType) -> Seq<RawFrame> {
    buf.filter(|f: RawFrame| f.spec_frame_type() == t)
}

/// The frames of `buf`, type by type in the order of `ts`, each type's in the order
/// logged.
pub open spec fn spec_frames_by_type(buf: Seq<RawFrame>, ts: Seq<FrameType>) -> Seq<RawFrameView>
    decreases ts.len(),
{
    if ts.len() == 0 {
        Seq::empty()
    } else {
        frame_views(spec_frames_of_type(buf, ts[0])) + spec_frames_by_type(buf, ts.drop_first())
    }
}

/// The record of a frame: its timestamp, then its `CAN_DataFrame` bytes.
pub open spec fn spec_frame_record(f: RawFrame) -> Seq<u8> {
    le64(f.timestamp_us) + f.spec_dataframe_bytes()
}

/// The records of the frames of type `t` are one record per frame, each of the size of
/// that type's records, in order.
proof fn lemma_can_records(buf: Seq<RawFrame>, t: FrameType)
    ensures
        spec_type_count(buf, t) == spec_frames_of_type(buf, t).len(),
        spec_can_records(buf, t).len() == spec_frames_of_type(buf, t).len() * (8 + t.spec_frame_size()),
        forall|k: int|
            0 <= k < spec_frames_of_type(buf, t).len() ==> spec_can_records(buf, t).subrange(
                k * (8 + t.spec_frame_size()),
                k * (8 + t.spec_frame_size()) + 8 + t.spec_frame_size(),
            ) == spec_frame_record(#[trigger] spec_frames_of_type(buf, t)[k]),
    decreases buf.len(),
{
    let rb = 8 + t.spec_frame_size();
    reveal(Seq::filter);
    assert(spec_type_count(buf, t) == spec_frames_of_type(buf, t).len()) by {
        assert((|f: RawFrame| f.spec_frame_type() == t) =~= (|f: RawFrame| f.spec_frame_type() == t));
    }
    if buf.len() > 0 {
        let p = buf.drop_last();
        let f = buf.last();
        lemma_can_records(p, t);
        let fp = spec_frames_of_type(p, t);
        let rp = spec_can_records(p, t);
        let ft = spec_frames_of_type(buf, t);
        let r = spec_can_records(buf, t);
        let pred = |g: RawFrame| g.spec_frame_type() == t;
        assert(ft == buf.filter(pred));
        assert(fp == p.filter(pred));
        assert(buf.filter(pred) == if pred(f) { p.filter(pred).push(f) } else { p.filter(pred) });
        if f.spec_frame_type() == t {
            assert(ft == fp.push(f));
            assert(f.spec_dataframe_bytes().len() == t.spec_frame_size());
            assert(spec_frame_record(f).len() == rb);
            assert(r == rp + spec_frame_record(f));
            assert(r.len() == fp.len() * rb + rb);
            assert(fp.len() * rb + rb == (fp.len() + 1) * rb) by (nonlinear_arith);
            assert forall|k: int| 0 <= k < ft.len() implies r.subrange(k * rb, k * rb + rb)
                == spec_frame_record(#[trigger] ft[k]) by {
                if k < fp.len() {
                    assert(k * rb + rb <= fp.len() * rb) by (nonlinear_arith)
                        requires
                            k < fp.len(),
                            rb > 0,
                    ;
                    assert(0 <= k * rb) by (nonlinear_arith)
                        requires
                            0 <= k,
                            rb > 0,
                    ;
                    assert(r.subrange(k * rb, k * rb + rb) =~= rp.subrange(k * rb, k * rb + rb));
                    assert(ft[k] == fp[k]);
                } else {
                    assert(k == fp.len());
                    assert(r.subrange(k * rb, k * rb + rb) =~= spec_frame_record(f));
                }
            }
        } else {
            assert(ft == fp);
            assert(r =~= rp);
        }
    }
}

/// The group a flush makes of the frames of type `t` reads back, record by record, as
/// those frames, when each of them is stored whole.
proof fn lemma_group_pairs(buf: Seq<RawFrame>, t: FrameType, w: BusLogWriterView, n: int)
    requires
        w.frame_size == t.spec_frame_size(),
        w.records == spec_can_records(buf, t),
        w.count == spec_type_count(buf, t),
        forall|i: int| 0 <= i < buf.len() ==> stored_whole(#[trigger] buf[i]),
        0 <= n <= w.count,
    ensures
        spec_pair_frames(spec_time_values(w), spec_frame_values(w), n)
            == frame_views(spec_frames_of_type(buf, t)).take(n),
    decreases n,
{
    let ft = spec_frames_of_type(buf, t);
    lemma_can_records(buf, t);
    if n > 0 {
        lemma_group_pairs(buf, t, w, n - 1);
        let k = n - 1;
        let rb = 8 + t.spec_frame_size();
        let f = ft[k];
        assert(record_bytes(w) == rb);
        let rec = w.records.subrange(k * rb, k * rb + rb);
        assert(rec == spec_frame_record(f));
        assert(0 <= k * rb && k * rb + rb <= ft.len() * rb) by (nonlinear_arith)
            requires
                0 <= k < ft.len(),
                rb > 0,
        ;
        assert(w.records.subrange(k * rb, k * rb + 8) =~= rec.subrange(0, 8));
        assert(rec.subrange(0, 8) =~= le64(f.timestamp_us));
        lemma_le64_roundtrip(f.timestamp_us);
        assert(u64_at(w.records, k * rb) == f.timestamp_us);
        assert(w.records.subrange(k * rb + 8, k * rb + rb) =~= rec.subrange(8, rb));
        assert(rec.subrange(8, rb) =~= f.spec_dataframe_bytes());
        assert(spec_time_values(w)[k] == Some(crate::values::DecodedValueView::UnsignedInteger(f.timestamp_us)));
        assert(spec_frame_values(w)[k] == Some(crate::values::DecodedValueView::ByteArray(f.spec_dataframe_bytes())));
        assert(ft.contains(f));
        buf.lemma_filter_contains_rev(|g: RawFrame| g.spec_frame_type() == t, f);
        let i = choose|i: int| 0 <= i < buf.len() && buf[i] == f;
        assert(stored_whole(buf[i]));
        lemma_dataframe_roundtrip(f);
        assert(frame_views(ft).take(n) =~= frame_views(ft).take(k).push(f@));
    }
}

/// Whether decoding the names `Timestamp` and `CAN_DataFrame` as UTF-8 gives them
/// back, as it does for any valid UTF-8.
pub open spec fn names_decoded() -> bool {
    &&& spec_utf8_lossy(timestamp_name()) == "Timestamp"@
    &&& spec_utf8_lossy(can_dataframe_name()) == "CAN_DataFrame"@
}

/// The bytes of an ASCII text are its UTF-8 encoding.
proof fn lemma_ascii_encoding(chars: Seq<char>, bytes: Seq<u8>)
    requires
        is_ascii_chars(chars),
        bytes.len() == chars.len(),
        forall|i: int| 0 <= i < chars.len() ==> bytes[i] == chars[i] as u8,
    ensures
        valid_utf8(bytes),
        decode_utf8(bytes) == chars,
{
    is_ascii_chars_encode_utf8(chars);
    assert(bytes =~= encode_utf8(chars));
    encode_utf8_valid_utf8(chars);
    encode_utf8_decode_utf8(chars);
}

/// Decode the names `Timestamp` and `CAN_DataFrame` as UTF-8, which shows that they
/// decode as themselves.
pub fn channel_names_decoded()
    ensures
        names_decoded(),
{
    let t: [u8; 9] = [0x54, 0x69, 0x6D, 0x65, 0x73, 0x74, 0x61, 0x6D, 0x70];
    let d: [u8; 13] = [0x43, 0x41, 0x4E, 0x5F, 0x44, 0x61, 0x74, 0x61, 0x46, 0x72, 0x61, 0x6D, 0x65];
    let ts = crate::text::utf8_lossy(&t);
    let ds = crate::text::utf8_lossy(&d);
    proof {
        reveal_strlit("Timestamp");
        reveal_strlit("CAN_DataFrame");
        assert(t@ =~= timestamp_name());
        assert(d@ =~= can_dataframe_name());
        lemma_ascii_encoding("Timestamp"@, t@);
        lemma_ascii_encoding("CAN_DataFrame"@, d@);
    }
}

/// The names of the two channels of a CAN group are kept whole in their text blocks.
proof fn lemma_channel_names_stored()
    ensures
        stored_text(timestamp_name()) == timestamp_name(),
        stored_text(can_dataframe_name()) == can_dataframe_name(),
{
    let a = timestamp_name();
    let b = can_dataframe_name();
    assert(no_zero(a));
    assert(no_zero(b));
    lemma_text_len_padded(a, 1);
    lemma_text_len_padded(b, 1);
    assert(a.take(a.len() as int) =~= a);
    assert(b.take(b.len() as int) =~= b);
}

/// Group `j` of the file, holding the records of the frames of type `t`, loads as those
/// frames.
proof fn lemma_group_frames(gs: Seq<BusLogWriterView>, j: int, idx: MdfIndex, buf: Seq<RawFrame>, t: FrameType)
    requires
        spec_log_len(gs) <= u64::MAX,
        all_readable(gs),
        0 <= j < gs.len(),
        idx@.channel_groups == spec_indexed_groups(gs, FIRST_SEGMENT as int),
        gs[j].data_name == can_dataframe_name(),
        gs[j].frame_size == t.spec_frame_size(),
        gs[j].records == spec_can_records(buf, t),
        gs[j].count == spec_type_count(buf, t),
        forall|i: int| 0 <= i < buf.len() ==> stored_whole(#[trigger] buf[i]),
        names_decoded(),
    ensures
        spec_group_frames(idx, j, spec_log_file(gs)) == Ok::<Seq<RawFrameView>, MdfError>(
            frame_views(spec_frames_of_type(buf, t)),
        ),
{
    let c = spec_log_file(gs);
    let w = gs[j];
    lemma_read_back_records(gs, j, idx);
    lemma_channel_names_stored();
    lemma_can_records(buf, t);
    let chs = idx.channel_groups@[j].channels@;
    reveal_strlit("Timestamp");
    reveal_strlit("CAN_DataFrame");
    assert(crate::text::name_is(chs[0].name, "Timestamp"@));
    assert(crate::text::name_is(chs[1].name, "CAN_DataFrame"@));
    assert("CAN_DataFrame"@.len() != "Timestamp"@.len());
    assert(!crate::text::name_is(chs[1].name, "Timestamp"@));
    assert(chs.drop_last().last() == chs[0]);
    reveal_with_fuel(spec_last_named, 2);
    assert(spec_last_named(chs, "Timestamp"@) == Some(0int));
    assert(spec_last_named(chs, "CAN_DataFrame"@) == Some(1int));
    lemma_group_pairs(buf, t, w, w.count as int);
    assert(frame_views(spec_frames_of_type(buf, t)).take(w.count as int) =~= frame_views(spec_frames_of_type(buf, t)));
}

/// Groups `gi..` of the file, holding the records of the frames of types `ts[gi..]`,
/// load as those frames, type by type.
proof fn lemma_groups_frames(gs: Seq<BusLogWriterView>, ts: Seq<FrameType>, idx: MdfIndex, buf: Seq<RawFrame>, gi: int)
    requires
        spec_log_len(gs) <= u64::MAX,
        all_readable(gs),
        idx@.channel_groups == spec_indexed_groups(gs, FIRST_SEGMENT as int),
        gs.len() == ts.len(),
        forall|j: int| 0 <= j < gs.len() ==> {
            &&& (#[trigger] gs[j]).data_name == can_dataframe_name()
            &&& gs[j].frame_size == ts[j].spec_frame_size()
            &&& gs[j].records == spec_can_records(buf, ts[j])
            &&& gs[j].count == spec_type_count(buf, ts[j])
        },
        forall|i: int| 0 <= i < buf.len() ==> stored_whole(#[trigger] buf[i]),
        names_decoded(),
        0 <= gi <= gs.len(),
    ensures
        spec_frames_from(idx, gi, spec_log_file(gs)) == Ok::<Seq<RawFrameView>, MdfError>(
            spec_frames_by_type(buf, ts.subrange(gi, ts.len() as int)),
        ),
    decreases gs.len() - gi,
{
    let c = spec_log_file(gs);
    lemma_indexed_groups_len(gs, FIRST_SEGMENT as int);
    assert(idx.channel_groups@.len() == gs.len());
    if gi == gs.len() {
        assert(ts.subrange(gi, ts.len() as int).len() == 0);
    } else {
        lemma_group_frames(gs, gi, idx, buf, ts[gi]);
        lemma_groups_frames(gs, ts, idx, buf, gi + 1);
        let rest = ts.subrange(gi, ts.len() as int);
        assert(rest[0] == ts[gi]);
        assert(rest.drop_first() =~= ts.subrange(gi + 1, ts.len() as int));
    }
}

/// The frames of the types of `a + b` are those of the types of `a`, then of `b`.
proof fn lemma_frames_by_type_concat(buf: Seq<RawFrame>, a: Seq<FrameType>, b: Seq<FrameType>)
    ensures
        spec_frames_by_type(buf, a + b) == spec_frames_by_type(buf, a) + spec_frames_by_type(buf, b),
    decreases a.len(),
{
    if a.len() == 0 {
        assert(a + b =~= b);
    } else {
        lemma_frames_by_type_concat(buf, a.drop_first(), b);
        assert((a + b).drop_first() =~= a.drop_first() + b);
        assert((a + b)[0] == a[0]);
    }
}

/// Leaving out of `ts` types of which `buf` has no frame leaves the frames unchanged.
proof fn lemma_frames_by_kept_types(buf: Seq<RawFrame>, ts: Seq<FrameType>, keep: spec_fn(FrameType) -> bool)
    requires
        forall|i: int| 0 <= i < ts.len() && !keep(#[trigger] ts[i]) ==> spec_frames_of_type(buf, ts[i]).len() == 0,
    ensures
        spec_frames_by_type(buf, ts.filter(keep)) == spec_frames_by_type(buf, ts),
    decreases ts.len(),
{
    reveal(Seq::filter);
    if ts.len() > 0 {
        let p = ts.drop_last();
        let t = ts.last();
        assert forall|i: int| 0 <= i < p.len() && !keep(#[trigger] p[i]) implies spec_frames_of_type(buf, p[i]).len() == 0 by {
            assert(p[i] == ts[i]);
        }
        lemma_frames_by_kept_types(buf, p, keep);
        assert(ts =~= p + seq![t]);
        lemma_frames_by_type_concat(buf, p, seq![t]);
        assert(seq![t].drop_first() =~= Seq::<FrameType>::empty());
        if keep(t) {
            lemma_frames_by_type_concat(buf, p.filter(keep), seq![t]);
            assert(p.filter(keep).push(t) =~= p.filter(keep) + seq![t]);
        } else {
            assert(spec_frames_of_type(buf, ts[ts.len() - 1]).len() == 0);
            assert(frame_views(spec_frames_of_type(buf, t)) =~= Seq::<RawFrameView>::empty());
            assert(seq![t][0] == t);
            assert(spec_frames_by_type(buf, Seq::<FrameType>::empty()) =~= Seq::<RawFrameView>::empty());
            assert(spec_frames_by_type(buf, seq![t]) =~= Seq::<RawFrameView>::empty());
        }
    }
}

/// A type that the marks of `buf` leave unmarked has no frame in `buf`.
proof fn lemma_unmarked_type(buf: Seq<RawFrame>, t: FrameType)
    requires
        !spec_marks(buf)[t.spec_index()],
    ensures
        spec_frames_of_type(buf, t).len() == 0,
{
    let ft = spec_frames_of_type(buf, t);
    if ft.len() > 0 {
        let pred = |g: RawFrame| g.spec_frame_type() == t;
        buf.lemma_filter_pred(pred, 0);
        assert(ft.contains(ft[0]));
        buf.lemma_filter_contains_rev(pred, ft[0]);
        let i = choose|i: int| 0 <= i < buf.len() && buf[i] == ft[0];
        assert(0 <= t.spec_index() < 6);
        assert(buf[i].spec_frame_type().spec_index() == t.spec_index());
    }
}

/// When the marks are those of the buffered frames, the frames of the marked types are
/// all the frames, type by type in the fixed order of frame types.
pub proof fn lemma_marked_frames(buf: Seq<RawFrame>)
    ensures
        spec_frames_by_type(buf, spec_present_types(spec_marks(buf)))
            == spec_frames_by_type(buf, all_frame_types()),
{
    let m = spec_marks(buf);
    let keep = |t: FrameType| m[t.spec_index()];
    assert forall|i: int| 0 <= i < all_frame_types().len() && !keep(#[trigger] all_frame_types()[i])
        implies spec_frames_of_type(buf, all_frame_types()[i]).len() == 0 by {
        lemma_unmarked_type(buf, all_frame_types()[i]);
    }
    lemma_frames_by_kept_types(buf, all_frame_types(), keep);
}

/// Logging a frame keeps a logger that holds only logged frames so: its marks stay
/// those of its buffered frames.
pub proof fn lemma_logging_keeps_loaded(before: RawCanLogger, after: RawCanLogger, frame: RawFrame)
    requires
        before.loaded(before.bus_name@),
        after.logged(&before, frame),
    ensures
        after.loaded(after.bus_name@),
{
    lemma_marks_push(before.buffer@, frame);
}

/// Loading the file that a raw CAN logger writes gives back the frames it logged:
/// those of each frame type it marked present, type by type in the fixed order of frame
/// types, each type's in the order logged; when it marks exactly the types of its
/// frames, as logging keeps it, that is every frame. This holds of a logger that has not flushed
/// yet, of frames stored whole (see [`stored_whole`]), when the file is written (no
/// record count overflows, the file fits in 64-bit offsets), `idx` is what indexing the
/// file gives, and the two channel names decode as themselves.
pub proof fn lemma_logged_frames_read_back(l: RawCanLogger, idx: MdfIndex)
    requires
        l.wf(),
        l.groups is None,
        forall|i: int| 0 <= i < l.buffer@.len() ==> stored_whole(#[trigger] l.buffer@[i]),
        !l.flush_overflows(),
        spec_log_len(l.writers_after_flush()) <= u64::MAX,
        spec_index(spec_log_file(l.writers_after_flush()), idx@.file_size) == Ok::<crate::index::MdfIndexView, MdfError>(idx@),
        names_decoded(),
    ensures
        spec_frames_from(idx, 0, spec_log_file(l.writers_after_flush())) == Ok::<Seq<RawFrameView>, MdfError>(
            spec_frames_by_type(l.buffer@, spec_present_types(l.present@)),
        ),
        l.present@ == spec_marks(l.buffer@) ==> spec_frames_from(idx, 0, spec_log_file(l.writers_after_flush()))
            == Ok::<Seq<RawFrameView>, MdfError>(spec_frames_by_type(l.buffer@, all_frame_types())),
{
    let gs = l.writers_after_flush();
    let ts = spec_present_types(l.present@);
    let buf = l.buffer@;
    assert(l.types_before_flush() == ts);
    assert forall|j: int| 0 <= j < gs.len() implies {
        &&& (#[trigger] gs[j]).data_name == can_dataframe_name()
        &&& gs[j].frame_size == ts[j].spec_frame_size()
        &&& gs[j].records == spec_can_records(buf, ts[j])
        &&& gs[j].count == spec_type_count(buf, ts[j])
        &&& readable_group(gs[j])
    } by {
        let t = ts[j];
        assert(l.writers_before_flush()[j] == spec_initial_writer(l.bus_name@, t));
        assert(gs[j] == spec_written(spec_initial_writer(l.bus_name@, t), buf, t));
        assert(l.writers_before_flush()[j].count + spec_type_count(buf, t) <= u64::MAX);
        assert(Seq::<u8>::empty() + spec_can_records(buf, t) =~= spec_can_records(buf, t));
        lemma_can_records(buf, t);
        assert(t.spec_frame_size() <= 70);
    }
    lemma_index_of_log_file(gs, idx@.file_size);
    lemma_groups_frames(gs, ts, idx, buf, 0);
    assert(ts.subrange(0, ts.len() as int) =~= ts);
    lemma_marked_frames(buf);
}

} // verus!

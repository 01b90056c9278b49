//! What indexing a bus-logging file gives back: for every group written, its name, its
//! record layout and count, its two channels and its data block.

use vstd::prelude::*;
use crate::blocks::DataType;
use crate::bytes::{le16, le32, le64, lemma_le32_roundtrip, lemma_le64_roundtrip};
use crate::index::{DataBlockInfo, IndexedChannelGroupView, IndexedChannelView, MdfIndexView};
use crate::error::MdfError;
use crate::index::{IndexedChannel, IndexedChannelGroup, MdfIndex};
use crate::channel_values::{spec_block_values, spec_channel_values, spec_regular_from};
use crate::values::{le_value, spec_decode_record, DecodedValueView};
use crate::bytes::from_le64;
use crate::reader::{id_is, lemma_text_len, spec_read, spec_text, text_len, u32_at, u64_at};
use crate::text::spec_utf8_lossy;
use crate::writer::{
    block_header, spec_cc_block, spec_cg_block, spec_cn_block, spec_dg_block, spec_dt_block,
    spec_hd_block, spec_id_block, spec_log_file, spec_log_len, spec_segment, spec_segment_head,
    spec_segment_len, spec_segments, spec_segments_len, spec_tx_block, timestamp_name, tx_size,
    FIRST_SEGMENT,
    zeros, BusLogWriterView, MAX_FRAME_SIZE,
};
use crate::scan::{
    chain_fuel, prepend, spec_channel_chain, spec_data_blocks, spec_dg_chain, spec_group,
    spec_group_chain, spec_index,
};

verus! {

/// Whether `c` holds `s` from byte `b` on.
pub open spec fn holds_at(c: Seq<u8>, b: int, s: Seq<u8>) -> bool {
    0 <= b && b + s.len() <= c.len() && c.subrange(b, b + s.len()) == s
}

/// A part of what `c` holds at `b` is held at its own place.
pub proof fn lemma_holds_part(c: Seq<u8>, b: int, s: Seq<u8>, i: int, j: int)
    requires
        holds_at(c, b, s),
        0 <= i <= j <= s.len(),
    ensures
        holds_at(c, b + i, s.subrange(i, j)),
        spec_read(c, b + i, j - i) == Some(s.subrange(i, j)),
{
    assert(c.subrange(b + i, b + j) =~= s.subrange(i, j)) by {
        assert forall|k: int| 0 <= k < j - i implies c.subrange(b + i, b + j)[k] == s.subrange(i, j)[k] by {
            assert(c.subrange(b, b + s.len())[i + k] == s[i + k]);
        }
    }
}

/// The left part of a join.
pub proof fn lemma_holds_left(c: Seq<u8>, b: int, x: Seq<u8>, y: Seq<u8>)
    requires
        holds_at(c, b, x + y),
    ensures
        holds_at(c, b, x),
{
    lemma_holds_part(c, b, x + y, 0, x.len() as int);
    assert((x + y).subrange(0, x.len() as int) =~= x);
}

/// The right part of a join.
pub proof fn lemma_holds_right(c: Seq<u8>, b: int, x: Seq<u8>, y: Seq<u8>)
    requires
        holds_at(c, b, x + y),
    ensures
        holds_at(c, b + x.len(), y),
{
    lemma_holds_part(c, b, x + y, x.len() as int, (x.len() + y.len()) as int);
    assert((x + y).subrange(x.len() as int, (x.len() + y.len()) as int) =~= y);
}

/// The `u64` stored at byte `i` of a sequence whose bytes `i..i + 8` are `le64(v)`.
pub proof fn lemma_u64_field(s: Seq<u8>, i: int, v: u64)
    requires
        0 <= i,
        i + 8 <= s.len(),
        s.subrange(i, i + 8) == le64(v),
    ensures
        u64_at(s, i) == v,
{
    lemma_le64_roundtrip(v);
}

/// The `u32` stored at byte `i` of a sequence whose bytes `i..i + 4` are `le32(v)`.
pub proof fn lemma_u32_field(s: Seq<u8>, i: int, v: u32)
    requires
        0 <= i,
        i + 4 <= s.len(),
        s.subrange(i, i + 4) == le32(v),
    ensures
        u32_at(s, i) == v,
{
    lemma_le32_roundtrip(v);
    assert(s[i] == s.subrange(i, i + 4)[0]);
    assert(s[i + 1] == s.subrange(i, i + 4)[1]);
    assert(s[i + 2] == s.subrange(i, i + 4)[2]);
    assert(s[i + 3] == s.subrange(i, i + 4)[3]);
}

/// The fields the index reads from a DG block.
#[verifier::rlimit(60)]
pub proof fn lemma_dg_fields(next: u64, cg: u64, data: u64)
    ensures
        spec_dg_block(next, cg, data).len() == 64,
        id_is(spec_dg_block(next, cg, data), 0x44, 0x47),
        u64_at(spec_dg_block(next, cg, data), 24) == next,
        u64_at(spec_dg_block(next, cg, data), 32) == cg,
        u64_at(spec_dg_block(next, cg, data), 40) == data,
        spec_dg_block(next, cg, data)[56] == 0,
{
    reveal(spec_dg_block);
    let s = spec_dg_block(next, cg, data);
    assert(s.subrange(24, 32) =~= le64(next));
    assert(s.subrange(32, 40) =~= le64(cg));
    assert(s.subrange(40, 48) =~= le64(data));
    lemma_u64_field(s, 24, next);
    lemma_u64_field(s, 32, cg);
    lemma_u64_field(s, 40, data);
}

/// The fields the index reads from a CG block.
#[verifier::rlimit(60)]
pub proof fn lemma_cg_fields(cn: u64, name: u64, count: u64, data_bytes: u32)
    ensures
        spec_cg_block(cn, name, count, data_bytes).len() == 104,
        id_is(spec_cg_block(cn, name, count, data_bytes), 0x43, 0x47),
        u64_at(spec_cg_block(cn, name, count, data_bytes), 24) == 0,
        u64_at(spec_cg_block(cn, name, count, data_bytes), 32) == cn,
        u64_at(spec_cg_block(cn, name, count, data_bytes), 40) == name,
        u64_at(spec_cg_block(cn, name, count, data_bytes), 64) == 0,
        u64_at(spec_cg_block(cn, name, count, data_bytes), 80) == count,
        u32_at(spec_cg_block(cn, name, count, data_bytes), 96) == data_bytes,
        u32_at(spec_cg_block(cn, name, count, data_bytes), 100) == 0,
{
    reveal(spec_cg_block);
    let s = spec_cg_block(cn, name, count, data_bytes);
    assert(s.subrange(24, 32) =~= le64(0));
    assert(s.subrange(32, 40) =~= le64(cn));
    assert(s.subrange(40, 48) =~= le64(name));
    assert(s.subrange(64, 72) =~= le64(0));
    assert(s.subrange(80, 88) =~= le64(count));
    assert(s.subrange(96, 100) =~= le32(data_bytes));
    assert(s.subrange(100, 104) =~= le32(0));
    lemma_u64_field(s, 24, 0);
    lemma_u64_field(s, 32, cn);
    lemma_u64_field(s, 40, name);
    lemma_u64_field(s, 64, 0);
    lemma_u64_field(s, 80, count);
    lemma_u32_field(s, 96, data_bytes);
    lemma_u32_field(s, 100, 0);
}

/// The fields the index reads from a CN block.
#[verifier::rlimit(60)]
pub proof fn lemma_cn_fields(
    next: u64,
    name: u64,
    cc: u64,
    cn_type: u8,
    sync_type: u8,
    data_type: u8,
    byte_offset: u32,
    bit_count: u32,
)
    ensures
        ({
            let s = spec_cn_block(next, name, cc, cn_type, sync_type, data_type, byte_offset, bit_count);
            &&& s.len() == 160
            &&& id_is(s, 0x43, 0x4E)
            &&& u64_at(s, 24) == next
            &&& u64_at(s, 40) == name
            &&& u64_at(s, 64) == 0
            &&& u64_at(s, 72) == 0
            &&& s[88] == cn_type
            &&& s[90] == data_type
            &&& s[91] == 0
            &&& u32_at(s, 92) == byte_offset
            &&& u32_at(s, 96) == bit_count
            &&& u32_at(s, 100) == 0
            &&& u32_at(s, 104) == 0
        }),
{
    reveal(spec_cn_block);
    let s = spec_cn_block(next, name, cc, cn_type, sync_type, data_type, byte_offset, bit_count);
    assert(s.subrange(24, 32) =~= le64(next));
    assert(s.subrange(40, 48) =~= le64(name));
    assert(s.subrange(64, 72) =~= le64(0));
    assert(s.subrange(72, 80) =~= le64(0));
    assert(s.subrange(92, 96) =~= le32(byte_offset));
    assert(s.subrange(96, 100) =~= le32(bit_count));
    assert(s.subrange(100, 104) =~= le32(0));
    assert(s.subrange(104, 108) =~= le32(0));
    lemma_u64_field(s, 24, next);
    lemma_u64_field(s, 40, name);
    lemma_u64_field(s, 64, 0);
    lemma_u64_field(s, 72, 0);
    lemma_u32_field(s, 92, byte_offset);
    lemma_u32_field(s, 96, bit_count);
    lemma_u32_field(s, 100, 0);
    lemma_u32_field(s, 104, 0);
}

/// The text of a sequence whose first zero byte is at `n` is its first `n` bytes.
pub proof fn lemma_text_len_at(s: Seq<u8>, n: int)
    requires
        0 <= n < s.len(),
        forall|i: int| 0 <= i < n ==> s[i] != 0,
        s[n] == 0,
    ensures
        text_len(s) == n,
    decreases n,
{
    if n > 0 {
        assert forall|i: int| 0 <= i < n - 1 implies s.drop_first()[i] != 0 by {
            assert(s.drop_first()[i] == s[i + 1]);
        }
        assert(s.drop_first()[n - 1] == s[n]);
        lemma_text_len_at(s.drop_first(), n - 1);
    }
}

/// Whether a text has no zero byte.
pub open spec fn no_zero(t: Seq<u8>) -> bool {
    forall|i: int| 0 <= i < t.len() ==> t[i] != 0
}

/// What a TX block keeps of a text: its bytes before the first zero byte.
pub open spec fn stored_text(t: Seq<u8>) -> Seq<u8> {
    t.take(text_len(t))
}

/// Zero bytes after a text do not change where its first zero byte is, and a text
/// without zero bytes is kept whole.
pub proof fn lemma_text_len_padded(t: Seq<u8>, k: int)
    requires
        k >= 1,
    ensures
        text_len(t + zeros(k)) == text_len(t),
        0 <= text_len(t) <= t.len(),
        no_zero(t) ==> text_len(t) == t.len(),
    decreases t.len(),
{
    let s = t + zeros(k);
    if t.len() == 0 {
        assert(s[0] == 0);
    } else {
        assert(s[0] == t[0]);
        if t[0] != 0 {
            assert(s.drop_first() =~= t.drop_first() + zeros(k));
            lemma_text_len_padded(t.drop_first(), k);
            if no_zero(t) {
                assert forall|i: int| 0 <= i < t.drop_first().len() implies t.drop_first()[i] != 0 by {
                    assert(t.drop_first()[i] == t[i + 1]);
                }
            }
        }
    }
}

/// Reading the TX block that holds a text gives back, decoded, its bytes before the
/// first zero byte.
pub proof fn lemma_read_text(c: Seq<u8>, a: int, t: Seq<u8>)
    requires
        holds_at(c, a, spec_tx_block(t)),
        0 < a <= u64::MAX,
        tx_size(t.len() as int) <= u64::MAX,
    ensures
        spec_text(c, a as u64) == Ok::<Option<Seq<char>>, crate::error::MdfError>(Some(spec_utf8_lossy(stored_text(t)))),
{
    reveal(spec_tx_block);
    let n = t.len() as int;
    let size = tx_size(n);
    crate::writer::lemma_tx_size(n);
    let blk = spec_tx_block(t);
    assert(blk.len() == size);
    lemma_holds_part(c, a, blk, 0, 24);
    let h = blk.subrange(0, 24);
    assert(h.subrange(8, 16) =~= le64(size as u64));
    lemma_u64_field(h, 8, size as u64);
    lemma_holds_part(c, a, blk, 0, size);
    assert(blk.subrange(0, size) =~= blk);
    let body = blk.subrange(24, size);
    assert(body =~= t + zeros(size - 24 - n));
    lemma_text_len_padded(t, size - 24 - n);
    assert(body.take(text_len(body)) =~= stored_text(t));
}

/// The timestamp channel of every bus-logging group, as the index reads it.
pub open spec fn spec_time_channel() -> IndexedChannelView {
    IndexedChannelView {
        name: Some(spec_utf8_lossy(stored_text(timestamp_name()))),
        unit: None,
        data_type: DataType::UnsignedIntegerLE,
        byte_offset: 0,
        bit_offset: 0,
        bit_count: 64,
        channel_type: 2,
        flags: 0,
        pos_invalidation_bit: 0,
        vlsd_data_address: None,
    }
}

/// The data channel of group `w`, as the index reads it.
pub open spec fn spec_data_channel(w: BusLogWriterView) -> IndexedChannelView {
    IndexedChannelView {
        name: Some(spec_utf8_lossy(stored_text(w.data_name))),
        unit: None,
        data_type: DataType::ByteArray,
        byte_offset: 8,
        bit_offset: 0,
        bit_count: (w.frame_size * 8) as u32,
        channel_type: 0,
        flags: 0,
        pos_invalidation_bit: 0,
        vlsd_data_address: None,
    }
}

/// Where the DT block of the segment at `b` of group `w` is.
pub open spec fn spec_dt_at(b: int, w: BusLogWriterView) -> int {
    b + 624 + tx_size(w.group_name.len() as int) + tx_size(w.data_name.len() as int)
}

/// The data blocks of the segment at `b` of group `w`: its DT block, if it has records.
pub open spec fn spec_group_blocks(b: int, w: BusLogWriterView) -> Seq<DataBlockInfo> {
    if w.records.len() > 0 {
        seq![DataBlockInfo { file_offset: spec_dt_at(b, w) as u64, size: (24 + w.records.len()) as u64, is_compressed: false }]
    } else {
        Seq::empty()
    }
}

/// The group the index reads from the segment at `b` of group `w`.
pub open spec fn spec_indexed_group(b: int, w: BusLogWriterView) -> IndexedChannelGroupView {
    IndexedChannelGroupView {
        name: Some(spec_utf8_lossy(stored_text(w.group_name))),
        comment: None,
        record_id_size: 0,
        record_size: (8 + w.frame_size) as u32,
        invalidation_bytes: 0,
        record_count: w.count,
        channels: seq![spec_time_channel(), spec_data_channel(w)],
        data_blocks: spec_group_blocks(b, w),
    }
}

/// Whether a group can be read back as written: a frame size whose bit count fits in
/// 32 bits, and one record of that size per counted record.
pub open spec fn readable_group(w: BusLogWriterView) -> bool {
    &&& w.frame_size <= MAX_FRAME_SIZE
    &&& w.records.len() == w.count * (8 + w.frame_size)
}

/// Where the TX block of the data channel name of the segment at `b` is.
pub open spec fn spec_tx_data_at(b: int, w: BusLogWriterView) -> int {
    b + 624 + tx_size(w.group_name.len() as int)
}

/// The data link of the DG block of the segment at `b`: its DT block, or 0.
pub open spec fn spec_data_link(b: int, w: BusLogWriterView) -> u64 {
    if w.records.len() > 0 { spec_dt_at(b, w) as u64 } else { 0 }
}

/// The parts of a segment at `b`, each held at its place.
pub proof fn lemma_segment_parts(c: Seq<u8>, b: int, next: u64, w: BusLogWriterView)
    requires
        holds_at(c, b, spec_segment(b, next, w)),
    ensures
        holds_at(c, b, spec_dg_block(next, (b + 64) as u64, spec_data_link(b, w))),
        holds_at(c, b + 64, spec_cg_block((b + 168) as u64, (b + 624) as u64, w.count, (8 + w.frame_size) as u32)),
        holds_at(c, b + 168, spec_cn_block((b + 328) as u64, (b + 584) as u64, (b + 488) as u64, 2, 1, 0, 0, 64)),
        holds_at(c, b + 328, spec_cn_block(0, spec_tx_data_at(b, w) as u64, 0, 0, 0, 10, 8, (w.frame_size * 8) as u32)),
        holds_at(c, b + 584, spec_tx_block(timestamp_name())),
        holds_at(c, b + 624, spec_tx_block(w.group_name)),
        holds_at(c, spec_tx_data_at(b, w), spec_tx_block(w.data_name)),
        w.records.len() > 0 ==> holds_at(c, spec_dt_at(b, w), spec_dt_block(w.records)),
{
    reveal(spec_segment_head);
    let tx_data = b + 624 + tx_size(w.group_name.len() as int);
    let dt = tx_data + tx_size(w.data_name.len() as int);
    let data_link: u64 = if w.records.len() > 0 { dt as u64 } else { 0 };
    let dg = spec_dg_block(next, (b + 64) as u64, data_link);
    let cg = spec_cg_block((b + 168) as u64, (b + 624) as u64, w.count, (8 + w.frame_size) as u32);
    let cn1 = spec_cn_block((b + 328) as u64, (b + 584) as u64, (b + 488) as u64, 2, 1, 0, 0, 64);
    let cn2 = spec_cn_block(0, tx_data as u64, 0, 0, 0, 10, 8, (w.frame_size * 8) as u32);
    let cc = spec_cc_block();
    let t1 = spec_tx_block(timestamp_name());
    let t2 = spec_tx_block(w.group_name);
    let t3 = spec_tx_block(w.data_name);
    let d = if w.records.len() > 0 { spec_dt_block(w.records) } else { Seq::empty() };
    let head = dg + cg + cn1 + cn2 + cc;
    assert(spec_segment(b, next, w) == head + t1 + t2 + t3 + d);
    crate::writer::lemma_block_lens();
    crate::writer::lemma_tx_block_len(timestamp_name());
    crate::writer::lemma_tx_block_len(w.group_name);
    crate::writer::lemma_tx_block_len(w.data_name);
    assert(tx_size(9) == 40);
    lemma_holds_left(c, b, head + t1 + t2 + t3, d);
    lemma_holds_right(c, b, head + t1 + t2 + t3, d);
    lemma_holds_left(c, b, head + t1 + t2, t3);
    lemma_holds_right(c, b, head + t1 + t2, t3);
    lemma_holds_left(c, b, head + t1, t2);
    lemma_holds_right(c, b, head + t1, t2);
    lemma_holds_left(c, b, head, t1);
    lemma_holds_right(c, b, head, t1);
    lemma_holds_left(c, b, dg + cg + cn1 + cn2, cc);
    lemma_holds_left(c, b, dg + cg + cn1, cn2);
    lemma_holds_right(c, b, dg + cg + cn1, cn2);
    lemma_holds_left(c, b, dg + cg, cn1);
    lemma_holds_right(c, b, dg + cg, cn1);
    lemma_holds_left(c, b, dg, cg);
    lemma_holds_right(c, b, dg, cg);
}

/// `Timestamp` has no zero byte.
pub proof fn lemma_timestamp_name()
    ensures
        no_zero(timestamp_name()),
        timestamp_name().len() == 9,
{
}

/// Reading the CN chain of the segment at `b` gives its two channels.
pub proof fn lemma_read_channels(c: Seq<u8>, b: int, next: u64, w: BusLogWriterView)
    requires
        holds_at(c, b, spec_segment(b, next, w)),
        0 < b,
        b + spec_segment_len(w) <= u64::MAX,
        readable_group(w),
    ensures
        spec_channel_chain(c, (b + 168) as u64, chain_fuel()) == Ok::<Seq<IndexedChannelView>, crate::error::MdfError>(
            seq![spec_time_channel(), spec_data_channel(w)],
        ),
{
    lemma_segment_parts(c, b, next, w);
    crate::writer::lemma_block_lens();
    crate::writer::lemma_tx_size(w.group_name.len() as int);
    crate::writer::lemma_tx_size(w.data_name.len() as int);
    lemma_timestamp_name();
    let tx_data = spec_tx_data_at(b, w);
    let cn1 = spec_cn_block((b + 328) as u64, (b + 584) as u64, (b + 488) as u64, 2, 1, 0, 0, 64);
    let cn2 = spec_cn_block(0, tx_data as u64, 0, 0, 0, 10, 8, (w.frame_size * 8) as u32);
    lemma_cn_fields((b + 328) as u64, (b + 584) as u64, (b + 488) as u64, 2, 1, 0, 0, 64);
    lemma_cn_fields(0, tx_data as u64, 0, 0, 0, 10, 8, (w.frame_size * 8) as u32);
    lemma_holds_part(c, b + 168, cn1, 0, 160);
    assert(cn1.subrange(0, 160) =~= cn1);
    lemma_holds_part(c, b + 328, cn2, 0, 160);
    assert(cn2.subrange(0, 160) =~= cn2);
    lemma_read_text(c, b + 584, timestamp_name());
    lemma_read_text(c, tx_data, w.data_name);
    let f = chain_fuel();
    assert(crate::scan::spec_channel(cn1, Some(spec_utf8_lossy(stored_text(timestamp_name()))), None) == spec_time_channel());
    assert(crate::scan::spec_channel(cn2, Some(spec_utf8_lossy(stored_text(w.data_name))), None) == spec_data_channel(w));
    assert(spec_channel_chain(c, 0, (f - 2) as nat) == Ok::<Seq<IndexedChannelView>, crate::error::MdfError>(Seq::empty()));
    assert(spec_channel_chain(c, (b + 328) as u64, (f - 1) as nat) == Ok::<Seq<IndexedChannelView>, crate::error::MdfError>(seq![spec_data_channel(w)]));
    assert(seq![spec_time_channel()] + seq![spec_data_channel(w)] =~= seq![spec_time_channel(), spec_data_channel(w)]);
}

/// The fields the index reads from a DT block's header.
pub proof fn lemma_dt_fields(records: Seq<u8>)
    requires
        24 + records.len() <= u64::MAX,
    ensures
        spec_dt_block(records).len() == 24 + records.len(),
        id_is(spec_dt_block(records).subrange(0, 24), 0x44, 0x54),
        u64_at(spec_dt_block(records).subrange(0, 24), 8) == 24 + records.len(),
{
    reveal(spec_dt_block);
    let h = spec_dt_block(records).subrange(0, 24);
    assert(h.subrange(8, 16) =~= le64((24 + records.len()) as u64));
    lemma_u64_field(h, 8, (24 + records.len()) as u64);
}

/// Reading the data block chain of the segment at `b` gives its DT block, if any.
pub proof fn lemma_read_data_blocks(c: Seq<u8>, b: int, next: u64, w: BusLogWriterView)
    requires
        holds_at(c, b, spec_segment(b, next, w)),
        0 < b,
        b + spec_segment_len(w) <= u64::MAX,
        readable_group(w),
    ensures
        spec_data_blocks(c, spec_data_link(b, w), chain_fuel()) == Ok::<Seq<DataBlockInfo>, MdfError>(spec_group_blocks(b, w)),
{
    if w.records.len() > 0 {
        lemma_segment_parts(c, b, next, w);
        crate::writer::lemma_tx_size(w.group_name.len() as int);
        crate::writer::lemma_tx_size(w.data_name.len() as int);
        let dt = spec_dt_at(b, w);
        lemma_dt_fields(w.records);
        lemma_holds_part(c, dt, spec_dt_block(w.records), 0, 24);
    }
}

/// Reading the CG chain of the segment at `b` gives its one group.
pub proof fn lemma_read_group(c: Seq<u8>, b: int, next: u64, w: BusLogWriterView)
    requires
        holds_at(c, b, spec_segment(b, next, w)),
        0 < b,
        b + spec_segment_len(w) <= u64::MAX,
        readable_group(w),
    ensures
        spec_group_chain(c, (b + 64) as u64, spec_data_link(b, w), 0, chain_fuel()) == Ok::<Seq<IndexedChannelGroupView>, MdfError>(
            seq![spec_indexed_group(b, w)],
        ),
{
    lemma_segment_parts(c, b, next, w);
    crate::writer::lemma_block_lens();
    crate::writer::lemma_tx_size(w.group_name.len() as int);
    crate::writer::lemma_tx_size(w.data_name.len() as int);
    let cg = spec_cg_block((b + 168) as u64, (b + 624) as u64, w.count, (8 + w.frame_size) as u32);
    lemma_cg_fields((b + 168) as u64, (b + 624) as u64, w.count, (8 + w.frame_size) as u32);
    lemma_holds_part(c, b + 64, cg, 0, 104);
    assert(cg.subrange(0, 104) =~= cg);
    lemma_read_text(c, b + 624, w.group_name);
    lemma_read_channels(c, b, next, w);
    lemma_read_data_blocks(c, b, next, w);
    let f = chain_fuel();
    let g = spec_group(
        cg,
        0,
        Some(spec_utf8_lossy(stored_text(w.group_name))),
        None,
        seq![spec_time_channel(), spec_data_channel(w)],
        spec_group_blocks(b, w),
    );
    assert(g == spec_indexed_group(b, w));
    assert(spec_group_chain(c, 0, spec_data_link(b, w), 0, (f - 1) as nat) == Ok::<Seq<IndexedChannelGroupView>, MdfError>(Seq::empty()));
    assert(seq![g] + Seq::<IndexedChannelGroupView>::empty() =~= seq![g]);
}

/// The groups the index reads from the segments of `gs`, the first at `b`.
pub open spec fn spec_indexed_groups(gs: Seq<BusLogWriterView>, b: int) -> Seq<IndexedChannelGroupView>
    decreases gs.len(),
{
    if gs.len() == 0 {
        Seq::empty()
    } else {
        seq![spec_indexed_group(b, gs[0])] + spec_indexed_groups(gs.drop_first(), b + spec_segment_len(gs[0]))
    }
}

/// Whether every group can be read back as written.
pub open spec fn all_readable(gs: Seq<BusLogWriterView>) -> bool {
    forall|i: int| 0 <= i < gs.len() ==> readable_group(#[trigger] gs[i])
}

/// A segment is as long as `spec_segment_len` says.
pub proof fn lemma_segment_len(b: int, next: u64, w: BusLogWriterView)
    ensures
        spec_segment(b, next, w).len() == spec_segment_len(w),
        spec_segment_len(w) >= 624,
{
    reveal(spec_segment_head);
    crate::writer::lemma_block_lens();
    crate::writer::lemma_tx_block_len(timestamp_name());
    crate::writer::lemma_tx_block_len(w.group_name);
    crate::writer::lemma_tx_block_len(w.data_name);
    crate::writer::lemma_tx_size(w.group_name.len() as int);
    crate::writer::lemma_tx_size(w.data_name.len() as int);
    assert(tx_size(9) == 40);
}

/// The segments are as long as `spec_segments_len` says, at least 624 bytes each.
pub proof fn lemma_segments_len(gs: Seq<BusLogWriterView>, b: int)
    ensures
        spec_segments(gs, b).len() == spec_segments_len(gs),
        spec_segments_len(gs) >= 624 * gs.len(),
    decreases gs.len(),
{
    if gs.len() > 0 {
        let next = if gs.len() > 1 { (b + spec_segment_len(gs[0])) as u64 } else { 0 };
        lemma_segment_len(b, next, gs[0]);
        lemma_segments_len(gs.drop_first(), b + spec_segment_len(gs[0]));
    }
}

/// Reading the DG chain of the segments of `gs` at `b` gives their groups.
pub proof fn lemma_read_dg_chain(c: Seq<u8>, gs: Seq<BusLogWriterView>, b: int, fuel: nat)
    requires
        holds_at(c, b, spec_segments(gs, b)),
        0 < b,
        b + spec_segments_len(gs) <= u64::MAX,
        all_readable(gs),
        fuel >= gs.len(),
    ensures
        spec_dg_chain(c, if gs.len() > 0 { b as u64 } else { 0 }, fuel) == Ok::<Seq<IndexedChannelGroupView>, MdfError>(
            spec_indexed_groups(gs, b),
        ),
    decreases gs.len(),
{
    if gs.len() > 0 {
        let w = gs[0];
        let rest = gs.drop_first();
        let l = spec_segment_len(w);
        let next: u64 = if gs.len() > 1 { (b + l) as u64 } else { 0 };
        assert(readable_group(gs[0]));
        lemma_segment_len(b, next, w);
        lemma_segments_len(rest, b + l);
        lemma_holds_left(c, b, spec_segment(b, next, w), spec_segments(rest, b + l));
        lemma_holds_right(c, b, spec_segment(b, next, w), spec_segments(rest, b + l));
        lemma_segment_parts(c, b, next, w);
        let dg = spec_dg_block(next, (b + 64) as u64, spec_data_link(b, w));
        lemma_dg_fields(next, (b + 64) as u64, spec_data_link(b, w));
        lemma_holds_part(c, b, dg, 0, 64);
        assert(dg.subrange(0, 64) =~= dg);
        lemma_read_group(c, b, next, w);
        assert forall|i: int| 0 <= i < rest.len() implies readable_group(#[trigger] rest[i]) by {
            assert(rest[i] == gs[i + 1]);
        }
        lemma_read_dg_chain(c, rest, b + l, (fuel - 1) as nat);
        assert(seq![spec_indexed_group(b, w)] + spec_indexed_groups(rest, b + l) =~= spec_indexed_groups(gs, b));
    }
}

/// The fields the index reads from the identification and HD blocks.
#[verifier::rlimit(40)]
pub proof fn lemma_head_fields(first: u64)
    ensures
        spec_id_block().len() == 64,
        spec_id_block()[0] == 0x4D,
        spec_id_block()[1] == 0x44,
        spec_id_block()[2] == 0x46,
        spec_hd_block(first).len() == 104,
        id_is(spec_hd_block(first), 0x48, 0x44),
        u64_at(spec_hd_block(first), 24) == first,
{
    reveal(spec_id_block);
    reveal(spec_hd_block);
    let hd = spec_hd_block(first);
    assert(hd.subrange(24, 32) =~= le64(first));
    lemma_u64_field(hd, 24, first);
}

/// Indexing bytes that hold the identification block, the HD block and the segments of
/// `gs` in their places gives the groups of `gs`.
proof fn lemma_index_of_held(c: Seq<u8>, gs: Seq<BusLogWriterView>, file_size: u64)
    requires
        holds_at(c, 0, spec_id_block()),
        holds_at(c, 64, spec_hd_block(if gs.len() > 0 { FIRST_SEGMENT } else { 0 })),
        holds_at(c, FIRST_SEGMENT as int, spec_segments(gs, FIRST_SEGMENT as int)),
        spec_log_len(gs) <= u64::MAX,
        all_readable(gs),
    ensures
        spec_index(c, file_size) == Ok::<MdfIndexView, MdfError>(
            MdfIndexView { file_size, channel_groups: spec_indexed_groups(gs, FIRST_SEGMENT as int) },
        ),
{
    let first: u64 = if gs.len() > 0 { FIRST_SEGMENT } else { 0 };
    let id = spec_id_block();
    let hd = spec_hd_block(first);
    lemma_head_fields(first);
    lemma_segments_len(gs, FIRST_SEGMENT as int);
    lemma_holds_part(c, 0, id, 0, 64);
    lemma_holds_part(c, 64, hd, 0, 104);
    assert(id.subrange(0, 64) =~= id);
    assert(hd.subrange(0, 104) =~= hd);
    lemma_read_dg_chain(c, gs, FIRST_SEGMENT as int, chain_fuel());
}

/// The file of groups `gs` holds its identification block, its HD block and its
/// segments in their places.
pub proof fn lemma_log_file_holds(gs: Seq<BusLogWriterView>)
    ensures
        holds_at(spec_log_file(gs), 0, spec_id_block()),
        holds_at(spec_log_file(gs), 64, spec_hd_block(if gs.len() > 0 { FIRST_SEGMENT } else { 0 })),
        holds_at(spec_log_file(gs), FIRST_SEGMENT as int, spec_segments(gs, FIRST_SEGMENT as int)),
{
    let first: u64 = if gs.len() > 0 { FIRST_SEGMENT } else { 0 };
    let id = spec_id_block();
    let hd = spec_hd_block(first);
    let segs = spec_segments(gs, FIRST_SEGMENT as int);
    let c = spec_log_file(gs);
    lemma_head_fields(first);
    assert(c == id + hd + segs);
    assert(holds_at(c, 0, id + hd + segs)) by {
        assert(c.subrange(0, c.len() as int) =~= c);
    }
    lemma_holds_left(c, 0, id + hd, segs);
    lemma_holds_right(c, 0, id + hd, segs);
    lemma_holds_left(c, 0, id, hd);
    lemma_holds_right(c, 0, id, hd);
}

/// Indexing the MDF file of bus-logging groups gives back, in order, every group
/// written: its name, its record layout and count, its timestamp and data channels,
/// and its DT block when it has records. Of a group or channel name the index keeps
/// the bytes before the first zero byte, since a zero byte ends a text block's text.
pub proof fn lemma_index_of_log_file(gs: Seq<BusLogWriterView>, file_size: u64)
    requires
        spec_log_len(gs) <= u64::MAX,
        all_readable(gs),
    ensures
        spec_index(spec_log_file(gs), file_size) == Ok::<MdfIndexView, MdfError>(
            MdfIndexView { file_size, channel_groups: spec_indexed_groups(gs, FIRST_SEGMENT as int) },
        ),
{
    lemma_log_file_holds(gs);
    lemma_index_of_held(spec_log_file(gs), gs, file_size);
}

/// Eight bytes read as a little-endian value are their `u64`.
pub proof fn lemma_le_value_8(s: Seq<u8>)
    requires
        s.len() == 8,
    ensures
        le_value(s) == from_le64(s),
{
    reveal_with_fuel(le_value, 9);
    let s1 = s.drop_first();
    let s2 = s1.drop_first();
    let s3 = s2.drop_first();
    let s4 = s3.drop_first();
    let s5 = s4.drop_first();
    let s6 = s5.drop_first();
    let s7 = s6.drop_first();
    let s8 = s7.drop_first();
    assert(s8.len() == 0);
    let (b0, b1, b2, b3, b4, b5, b6, b7) = (s[0], s[1], s[2], s[3], s[4], s[5], s[6], s[7]);
    assert(s1[0] == b1 && s2[0] == b2 && s3[0] == b3 && s4[0] == b4 && s5[0] == b5 && s6[0] == b6 && s7[0] == b7);
    assert((b0 as u64) | (((b1 as u64) | (((b2 as u64) | (((b3 as u64) | (((b4 as u64) | (((b5 as u64)
        | (((b6 as u64) | (((b7 as u64) | (0u64 << 8u64)) << 8u64)) << 8u64)) << 8u64)) << 8u64))
        << 8u64)) << 8u64)) << 8u64) == (b0 as u64) | ((b1 as u64) << 8u64) | ((b2 as u64) << 16u64)
        | ((b3 as u64) << 24u64) | ((b4 as u64) << 32u64) | ((b5 as u64) << 40u64) | ((b6 as u64)
        << 48u64) | ((b7 as u64) << 56u64)) by (bit_vector);
}

/// The bytes per record of group `w`.
pub open spec fn record_bytes(w: BusLogWriterView) -> int {
    8 + w.frame_size as int
}

/// The timestamps of the records of group `w`, as the timestamp channel reads them.
pub open spec fn spec_time_values(w: BusLogWriterView) -> Seq<Option<DecodedValueView>> {
    Seq::new(
        w.count as nat,
        |k: int| Some(DecodedValueView::UnsignedInteger(u64_at(w.records, k * record_bytes(w)))),
    )
}

/// The frame bytes of the records of group `w`, as the data channel reads them.
pub open spec fn spec_frame_values(w: BusLogWriterView) -> Seq<Option<DecodedValueView>> {
    Seq::new(
        w.count as nat,
        |k: int| Some(DecodedValueView::ByteArray(w.records.subrange(k * record_bytes(w) + 8, k * record_bytes(w) + record_bytes(w)))),
    )
}

/// A timestamp channel reads a record's first eight bytes.
proof fn lemma_decode_time(rec: Seq<u8>, rs: int, ch: IndexedChannel)
    requires
        rec.len() == rs,
        8 <= rs <= u32::MAX,
        ch@ == spec_time_channel(),
    ensures
        spec_decode_record(rec, 0, rs, ch) == Some(DecodedValueView::UnsignedInteger(from_le64(rec.subrange(0, 8)))),
{
    assert(0u32 & 1 == 0 && 0u32 & 2 == 0) by (bit_vector);
    lemma_le_value_8(rec.subrange(0, 8));
    let raw = le_value(rec.subrange(0, 8));
    assert((raw >> 0u8) & u64::MAX == raw) by (bit_vector);
}

/// A data channel reads the frame bytes after a record's timestamp.
proof fn lemma_decode_frame(rec: Seq<u8>, w: BusLogWriterView, ch: IndexedChannel)
    requires
        rec.len() == record_bytes(w),
        w.frame_size <= MAX_FRAME_SIZE,
        ch@ == spec_data_channel(w),
    ensures
        spec_decode_record(rec, 0, record_bytes(w), ch) == Some(DecodedValueView::ByteArray(rec.subrange(8, record_bytes(w)))),
{
    assert(0u32 & 1 == 0 && 0u32 & 2 == 0) by (bit_vector);
}

/// Reading the two channels of the segment at `b` gives back its records' timestamps
/// and frame bytes.
proof fn lemma_values_of_group(c: Seq<u8>, b: int, next: u64, w: BusLogWriterView, g: IndexedChannelGroup)
    requires
        holds_at(c, b, spec_segment(b, next, w)),
        0 < b,
        b + spec_segment_len(w) <= u64::MAX,
        readable_group(w),
        g@ == spec_indexed_group(b, w),
    ensures
        spec_regular_from(c, g, g.channels@[0], 0) == Ok::<Seq<Option<DecodedValueView>>, MdfError>(spec_time_values(w)),
        spec_regular_from(c, g, g.channels@[1], 0) == Ok::<Seq<Option<DecodedValueView>>, MdfError>(spec_frame_values(w)),
{
    let rs = record_bytes(w);
    let n = w.count as int;
    assert(g.channels@.map_values(|ch: IndexedChannel| ch@) == seq![spec_time_channel(), spec_data_channel(w)]);
    assert(g.channels@.len() == 2);
    let t = g.channels@[0];
    let d = g.channels@[1];
    assert(t@ == g.channels@.map_values(|ch: IndexedChannel| ch@)[0]);
    assert(d@ == g.channels@.map_values(|ch: IndexedChannel| ch@)[1]);
    assert(w.records.len() == n * rs);
    if w.records.len() == 0 {
        assert(n == 0) by (nonlinear_arith)
            requires n * rs == 0, rs >= 8, n >= 0;
        assert(g.data_blocks@ =~= Seq::<DataBlockInfo>::empty());
        assert(spec_time_values(w) =~= Seq::<Option<DecodedValueView>>::empty());
        assert(spec_frame_values(w) =~= Seq::<Option<DecodedValueView>>::empty());
    } else {
        lemma_segment_parts(c, b, next, w);
        crate::writer::lemma_tx_size(w.group_name.len() as int);
        crate::writer::lemma_tx_size(w.data_name.len() as int);
        let dt = spec_dt_at(b, w);
        let blk = spec_dt_block(w.records);
        assert(blk == block_header(0x44, 0x54, (24 + w.records.len()) as u64, 0) + w.records) by {
            reveal(spec_dt_block);
        }
        crate::writer::lemma_block_lens();
        lemma_holds_part(c, dt, blk, 24, 24 + w.records.len() as int);
        assert(blk.subrange(24, 24 + w.records.len() as int) =~= w.records);
        assert(g.data_blocks@.len() == 1);
        assert(g.data_blocks@[0] == DataBlockInfo { file_offset: dt as u64, size: (24 + w.records.len()) as u64, is_compressed: false });
        assert(w.records.len() as int / rs == n) by (nonlinear_arith)
            requires w.records.len() == n * rs, rs >= 8, n >= 0;
        let tv = spec_block_values(w.records, rs, 0, rs, t);
        let fv = spec_block_values(w.records, rs, 0, rs, d);
        assert forall|k: int| 0 <= k < n implies tv[k] == spec_time_values(w)[k] && fv[k] == spec_frame_values(w)[k] by {
            assert(k * rs + rs <= n * rs) by (nonlinear_arith)
                requires 0 <= k < n, rs >= 8;
            assert(0 <= k * rs) by (nonlinear_arith)
                requires 0 <= k, rs >= 8;
            let rec = w.records.subrange(k * rs, k * rs + rs);
            lemma_decode_time(rec, rs, t);
            lemma_decode_frame(rec, w, d);
            assert(rec.subrange(0, 8) =~= w.records.subrange(k * rs, k * rs + 8));
            assert(rec.subrange(8, rs) =~= w.records.subrange(k * rs + 8, k * rs + rs));
        }
        assert(tv =~= spec_time_values(w));
        assert(fv =~= spec_frame_values(w));
        assert(spec_regular_from(c, g, t, 1) == Ok::<Seq<Option<DecodedValueView>>, MdfError>(Seq::empty()));
        assert(spec_regular_from(c, g, d, 1) == Ok::<Seq<Option<DecodedValueView>>, MdfError>(Seq::empty()));
        assert(spec_read(c, dt + 24, w.records.len() as int) == Some(w.records));
        assert(g.record_id_size + g.record_size + g.invalidation_bytes == rs);
        assert(tv + Seq::<Option<DecodedValueView>>::empty() =~= tv);
        assert(fv + Seq::<Option<DecodedValueView>>::empty() =~= fv);
    }
}

/// Where the segment of group `j` of `gs` starts, the first at `b`.
pub open spec fn segment_base(gs: Seq<BusLogWriterView>, b: int, j: int) -> int {
    b + spec_segments_len(gs.take(j))
}

/// The DG link of the segment of group `j`: the next segment, or 0 for the last.
pub open spec fn segment_next(gs: Seq<BusLogWriterView>, b: int, j: int) -> u64 {
    if j + 1 < gs.len() { segment_base(gs, b, j + 1) as u64 } else { 0 }
}

/// The segments of `gs` hold the segment of each group at its base, and the index reads
/// that segment's group as group `j`.
proof fn lemma_segment_at(c: Seq<u8>, gs: Seq<BusLogWriterView>, b: int, j: int)
    requires
        holds_at(c, b, spec_segments(gs, b)),
        0 <= j < gs.len(),
    ensures
        holds_at(c, segment_base(gs, b, j), spec_segment(segment_base(gs, b, j), segment_next(gs, b, j), gs[j])),
        spec_indexed_groups(gs, b).len() == gs.len(),
        spec_indexed_groups(gs, b)[j] == spec_indexed_group(segment_base(gs, b, j), gs[j]),
        segment_base(gs, b, j) + spec_segment_len(gs[j]) <= b + spec_segments_len(gs),
        segment_base(gs, b, j) >= b,
    decreases j,
{
    let w = gs[0];
    let rest = gs.drop_first();
    let l = spec_segment_len(w);
    let next: u64 = if gs.len() > 1 { (b + l) as u64 } else { 0 };
    lemma_segment_len(b, next, w);
    lemma_segments_len(rest, b + l);
    crate::writer::lemma_segments_len_nonneg(rest);
    lemma_holds_left(c, b, spec_segment(b, next, w), spec_segments(rest, b + l));
    lemma_holds_right(c, b, spec_segment(b, next, w), spec_segments(rest, b + l));
    lemma_indexed_groups_len(gs, b);
    if j == 0 {
        assert(gs.take(0) =~= Seq::<BusLogWriterView>::empty());
        assert(gs.take(1).drop_first() =~= Seq::<BusLogWriterView>::empty());
        assert(gs.take(1)[0] == w);
    } else {
        lemma_segment_at(c, rest, b + l, j - 1);
        assert(gs.take(j).drop_first() =~= rest.take(j - 1));
        assert(gs.take(j)[0] == w);
        assert(gs.take(j + 1).drop_first() =~= rest.take(j));
        assert(gs.take(j + 1)[0] == w);
        assert(rest[j - 1] == gs[j]);
    }
}

/// There is one indexed group per group.
pub proof fn lemma_indexed_groups_len(gs: Seq<BusLogWriterView>, b: int)
    ensures
        spec_indexed_groups(gs, b).len() == gs.len(),
    decreases gs.len(),
{
    if gs.len() > 0 {
        lemma_indexed_groups_len(gs.drop_first(), b + spec_segment_len(gs[0]));
    }
}

/// Reading back the records of bytes that hold the segments of `gs` at 168.
proof fn lemma_read_back_held(c: Seq<u8>, gs: Seq<BusLogWriterView>, j: int, idx: MdfIndex)
    requires
        holds_at(c, FIRST_SEGMENT as int, spec_segments(gs, FIRST_SEGMENT as int)),
        spec_log_len(gs) <= u64::MAX,
        all_readable(gs),
        0 <= j < gs.len(),
        idx@.channel_groups == spec_indexed_groups(gs, FIRST_SEGMENT as int),
    ensures
        spec_channel_values(idx, j, 0, c) == Ok::<Seq<Option<DecodedValueView>>, MdfError>(spec_time_values(gs[j])),
        spec_channel_values(idx, j, 1, c) == Ok::<Seq<Option<DecodedValueView>>, MdfError>(spec_frame_values(gs[j])),
        idx.channel_groups@[j].channels@.len() == 2,
        idx.channel_groups@[j].channels@[0]@ == spec_time_channel(),
        idx.channel_groups@[j].channels@[1]@ == spec_data_channel(gs[j]),
{
    let b0 = FIRST_SEGMENT as int;
    lemma_segment_at(c, gs, b0, j);
    let b = segment_base(gs, b0, j);
    assert(idx.channel_groups@.len() == gs.len());
    let g = idx.channel_groups@[j];
    assert(idx@.channel_groups[j] == g@);
    assert(readable_group(gs[j]));
    lemma_values_of_group(c, b, segment_next(gs, b0, j), gs[j], g);
    assert(g@.channels == seq![spec_time_channel(), spec_data_channel(gs[j])]);
    assert(g.channels@.map_values(|ch: IndexedChannel| ch@)[0] == spec_time_channel());
    assert(g.channels@.map_values(|ch: IndexedChannel| ch@)[1] == spec_data_channel(gs[j]));
}

/// Reading back the records of a bus-logging file through its index: for every group
/// `j`, its timestamp channel gives each record's timestamp and its data channel each
/// record's frame bytes, in the order written. `idx` is an index whose groups are those
/// that indexing the file gives.
pub proof fn lemma_read_back_records(gs: Seq<BusLogWriterView>, j: int, idx: MdfIndex)
    requires
        spec_log_len(gs) <= u64::MAX,
        all_readable(gs),
        0 <= j < gs.len(),
        idx@.channel_groups == spec_indexed_groups(gs, FIRST_SEGMENT as int),
    ensures
        spec_channel_values(idx, j, 0, spec_log_file(gs)) == Ok::<Seq<Option<DecodedValueView>>, MdfError>(spec_time_values(gs[j])),
        spec_channel_values(idx, j, 1, spec_log_file(gs)) == Ok::<Seq<Option<DecodedValueView>>, MdfError>(spec_frame_values(gs[j])),
        idx.channel_groups@[j].channels@.len() == 2,
        idx.channel_groups@[j].channels@[0]@ == spec_time_channel(),
        idx.channel_groups@[j].channels@[1]@ == spec_data_channel(gs[j]),
{
    lemma_log_file_holds(gs);
    lemma_read_back_held(spec_log_file(gs), gs, j, idx);
}

} // verus!

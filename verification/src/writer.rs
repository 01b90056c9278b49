//! A writer of MDF 4.1 files made of bus-logging channel groups.
//!
//! Each channel group has a data group of its own and two channels: a master channel
//! `Timestamp` (unsigned 64-bit microseconds, with a linear conversion to seconds) and
//! a byte-array channel with the frame bytes. Every record is the 8-byte little-endian
//! timestamp followed by the frame bytes.
//!
//! Layout: the identification block at 0, the HD block at 64, then one segment per
//! group from 168 on. A segment at `b` holds the DG block at `b`, the CG block at
//! `b + 64`, the two CN blocks at `b + 168` and `b + 328`, the CC block at `b + 488`,
//! the text blocks (channel name `Timestamp` at `b + 584`, the group name at `b + 624`,
//! the data channel name) and last the DT block with the records, when there are any.

use vstd::prelude::*;
use crate::bytes::{le16, le32, le64, push_le16, push_le32, push_le64, push_slice, push_zeros};
use crate::error::MdfError;

verus! {

/// `n` zero bytes.
pub open spec fn zeros(n: int) -> Seq<u8> {
    Seq::new(n as nat, |i: int| 0u8)
}

/// The size of a TX block that holds `n` text bytes: the header, the text, a zero byte,
/// padded with zeros to a multiple of eight.
pub open spec fn tx_size(n: int) -> int {
    ((n + 32) / 8) * 8
}

/// The bits of the IEEE 754 double 1e-6, the factor from microseconds to seconds.
pub const MICROS_TO_SECONDS_BITS: u64 = 0x3EB0C6F7A0B5ED8D;

/// Offset of the first group's segment.
pub const FIRST_SEGMENT: u64 = 168;

/// The four identifier bytes `##XY` of a block.
pub open spec fn block_id(x: u8, y: u8) -> Seq<u8> {
    seq![0x23u8, 0x23u8, x, y]
}

/// A block header: identifier, four reserved bytes, length, link count.
pub open spec fn block_header(x: u8, y: u8, length: u64, links: u64) -> Seq<u8> {
    block_id(x, y) + le32(0) + le64(length) + le64(links)
}

/// The 64-byte identification block: `MDF     `, `4.10    `, `mdf4-rs `, version 410.
#[verifier::opaque]
pub open spec fn spec_id_block() -> Seq<u8> {
    seq![0x4Du8, 0x44, 0x46, 0x20, 0x20, 0x20, 0x20, 0x20] + seq![
        0x34u8,
        0x2E,
        0x31,
        0x30,
        0x20,
        0x20,
        0x20,
        0x20,
    ] + seq![0x6Du8, 0x64, 0x66, 0x34, 0x2D, 0x72, 0x73, 0x20] + zeros(4) + le16(410) + zeros(
        30,
    ) + le16(0) + le16(0)
}

/// The 104-byte HD block, whose first data group is at `dg`.
#[verifier::opaque]
pub open spec fn spec_hd_block(dg: u64) -> Seq<u8> {
    block_header(0x48, 0x44, 104, 6) + le64(dg) + le64(0) + le64(0) + le64(0) + le64(0) + le64(0)
        + zeros(32)
}

/// The 64-byte DG block: next data group at `next`, its channel group at `cg`, its data
/// at `data`.
#[verifier::opaque]
pub open spec fn spec_dg_block(next: u64, cg: u64, data: u64) -> Seq<u8> {
    block_header(0x44, 0x47, 64, 4) + le64(next) + le64(cg) + le64(data) + le64(0) + zeros(8)
}

/// The 104-byte CG block: first channel at `cn`, name at `name`, `count` records of
/// `data_bytes` bytes.
#[verifier::opaque]
pub open spec fn spec_cg_block(cn: u64, name: u64, count: u64, data_bytes: u32) -> Seq<u8> {
    block_header(0x43, 0x47, 104, 6) + le64(0) + le64(cn) + le64(name) + le64(0) + le64(0)
        + le64(0) + le64(0) + le64(count) + le16(0) + le16(0) + zeros(4) + le32(data_bytes)
        + le32(0)
}

/// The 160-byte CN block.
#[verifier::opaque]
pub open spec fn spec_cn_block(
    next: u64,
    name: u64,
    cc: u64,
    cn_type: u8,
    sync_type: u8,
    data_type: u8,
    byte_offset: u32,
    bit_count: u32,
) -> Seq<u8> {
    block_header(0x43, 0x4E, 160, 8) + le64(next) + le64(0) + le64(name) + le64(0) + le64(cc)
        + le64(0) + le64(0) + le64(0) + seq![cn_type, sync_type, data_type, 0u8] + le32(
        byte_offset,
    ) + le32(bit_count) + le32(0) + le32(0) + seq![0u8, 0u8] + le16(0) + zeros(48)
}

/// The 96-byte CC block of a linear conversion with offset 0 and factor 1e-6.
#[verifier::opaque]
pub open spec fn spec_cc_block() -> Seq<u8> {
    block_header(0x43, 0x43, 96, 4) + le64(0) + le64(0) + le64(0) + le64(0) + seq![1u8, 0u8]
        + le16(0) + le16(0) + le16(2) + zeros(16) + le64(0) + le64(MICROS_TO_SECONDS_BITS)
}

/// The TX block that holds `text`.
#[verifier::opaque]
pub open spec fn spec_tx_block(text: Seq<u8>) -> Seq<u8> {
    block_header(0x54, 0x58, tx_size(text.len() as int) as u64, 0) + text + zeros(
        tx_size(text.len() as int) - 24 - text.len(),
    )
}

/// The DT block that holds `records`.
#[verifier::opaque]
pub open spec fn spec_dt_block(records: Seq<u8>) -> Seq<u8> {
    block_header(0x44, 0x54, (24 + records.len()) as u64, 0) + records
}

/// The bytes of the name `Timestamp`.
pub open spec fn timestamp_name() -> Seq<u8> {
    seq![0x54u8, 0x69, 0x6D, 0x65, 0x73, 0x74, 0x61, 0x6D, 0x70]
}

/// What a bus log writer holds, as plain values.
pub struct BusLogWriterView {
    pub group_name: Seq<u8>,
    pub data_name: Seq<u8>,
    pub frame_size: nat,
    pub records: Seq<u8>,
    pub count: u64,
}

/// The bytes of a group's segment besides its fixed blocks: its text blocks and its
/// DT block.
pub open spec fn spec_segment_tail(w: BusLogWriterView) -> int {
    tx_size(w.group_name.len() as int) + tx_size(w.data_name.len() as int) + if w.records.len()
        > 0 {
        24 + w.records.len()
    } else {
        0
    }
}

/// The size of a group's segment.
pub open spec fn spec_segment_len(w: BusLogWriterView) -> int {
    624 + spec_segment_tail(w)
}

/// The fixed blocks of the segment at `b`: DG, CG, the two CN blocks and the CC block.
#[verifier::opaque]
pub open spec fn spec_segment_head(b: int, next: u64, data_link: u64, count: u64, rec_bytes: u32, tx_data: u64, bits: u32) -> Seq<u8> {
    spec_dg_block(next, (b + 64) as u64, data_link) + spec_cg_block(
        (b + 168) as u64,
        (b + 624) as u64,
        count,
        rec_bytes,
    ) + spec_cn_block((b + 328) as u64, (b + 584) as u64, (b + 488) as u64, 2, 1, 0, 0, 64)
        + spec_cn_block(0, tx_data, 0, 0, 0, 10, 8, bits) + spec_cc_block()
}

/// The segment of group `w` at `b`, whose DG block links to `next`.
pub open spec fn spec_segment(b: int, next: u64, w: BusLogWriterView) -> Seq<u8> {
    let tx_data = b + 624 + tx_size(w.group_name.len() as int);
    let dt = tx_data + tx_size(w.data_name.len() as int);
    spec_segment_head(
        b,
        next,
        if w.records.len() > 0 { dt as u64 } else { 0 },
        w.count,
        (8 + w.frame_size) as u32,
        tx_data as u64,
        (w.frame_size * 8) as u32,
    ) + spec_tx_block(timestamp_name()) + spec_tx_block(w.group_name) + spec_tx_block(w.data_name)
        + if w.records.len() > 0 {
        spec_dt_block(w.records)
    } else {
        Seq::empty()
    }
}

/// The segments of groups `gs`, the first at `b`, each linked to the next.
pub open spec fn spec_segments(gs: Seq<BusLogWriterView>, b: int) -> Seq<u8>
    decreases gs.len(),
{
    if gs.len() == 0 {
        Seq::empty()
    } else {
        let next = if gs.len() > 1 { (b + spec_segment_len(gs[0])) as u64 } else { 0 };
        spec_segment(b, next, gs[0]) + spec_segments(gs.drop_first(), b + spec_segment_len(gs[0]))
    }
}

/// The total size of the segments of groups `gs`.
pub open spec fn spec_segments_len(gs: Seq<BusLogWriterView>) -> int
    decreases gs.len(),
{
    if gs.len() == 0 {
        0
    } else {
        spec_segment_len(gs[0]) + spec_segments_len(gs.drop_first())
    }
}

/// The MDF file of the groups `gs`, in order.
pub open spec fn spec_log_file(gs: Seq<BusLogWriterView>) -> Seq<u8> {
    spec_id_block() + spec_hd_block(if gs.len() > 0 { FIRST_SEGMENT } else { 0 }) + spec_segments(
        gs,
        FIRST_SEGMENT as int,
    )
}

/// The size of the MDF file of the groups `gs`.
pub open spec fn spec_log_len(gs: Seq<BusLogWriterView>) -> int {
    FIRST_SEGMENT + spec_segments_len(gs)
}

/// The size of the file of one group with these names and records.
pub open spec fn spec_file_len(group: Seq<u8>, data_name: Seq<u8>, records: Seq<u8>) -> int {
    FIRST_SEGMENT + 624 + tx_size(group.len() as int) + tx_size(data_name.len() as int) + if records.len() > 0 {
        24 + records.len()
    } else {
        0
    }
}

/// The MDF file of one group.
pub open spec fn spec_bus_file(w: BusLogWriterView) -> Seq<u8> {
    spec_log_file(seq![w])
}

/// Every bus-logging file begins with the identification block, whose first three
/// bytes are `MDF`.
pub proof fn lemma_log_file_starts_with_mdf(gs: Seq<BusLogWriterView>)
    ensures
        spec_log_file(gs).len() >= 64,
        spec_log_file(gs).subrange(0, 64) == spec_id_block(),
        spec_log_file(gs).subrange(0, 3) == seq![0x4Du8, 0x44, 0x46],
{
    reveal(spec_id_block);
    let id = spec_id_block();
    assert(id.len() == 64);
    let f = spec_log_file(gs);
    let rest = spec_hd_block(if gs.len() > 0 { FIRST_SEGMENT } else { 0 }) + spec_segments(gs, FIRST_SEGMENT as int);
    assert(f =~= id + rest);
    assert(f.subrange(0, 64) =~= id);
    assert(f.subrange(0, 3) =~= seq![0x4Du8, 0x44, 0x46]);
}

/// The file of one bus-logging group (what the LIN and FlexRay loggers write) begins
/// with `MDF`.
pub proof fn lemma_bus_file_starts_with_mdf(w: BusLogWriterView)
    ensures
        spec_bus_file(w).len() >= 64,
        spec_bus_file(w).subrange(0, 3) == seq![0x4Du8, 0x44, 0x46],
{
    lemma_log_file_starts_with_mdf(seq![w]);
}

/// Text blocks are at least a header long.
pub proof fn lemma_tx_size(n: int)
    requires
        n >= 0,
    ensures
        tx_size(n) >= 24 + n + 1,
{
    assert(((n + 32) / 8) * 8 >= n + 25) by (nonlinear_arith)
        requires
            n >= 0,
    ;
}

/// The sizes of the fixed blocks.
pub proof fn lemma_block_lens()
    ensures
        forall|next: u64, cg: u64, data: u64| #[trigger] spec_dg_block(next, cg, data).len() == 64,
        forall|cn: u64, name: u64, count: u64, data_bytes: u32|
            #[trigger] spec_cg_block(cn, name, count, data_bytes).len() == 104,
        forall|next: u64, name: u64, cc: u64, t: u8, s: u8, d: u8, o: u32, bits: u32|
            #[trigger] spec_cn_block(next, name, cc, t, s, d, o, bits).len() == 160,
        spec_cc_block().len() == 96,
        forall|records: Seq<u8>| #[trigger] spec_dt_block(records).len() == 24 + records.len(),
{
    reveal(spec_dg_block);
    reveal(spec_cg_block);
    reveal(spec_cn_block);
    reveal(spec_cc_block);
    reveal(spec_dt_block);
}

/// A TX block is `tx_size` bytes long.
pub proof fn lemma_tx_block_len(text: Seq<u8>)
    ensures
        spec_tx_block(text).len() == tx_size(text.len() as int),
{
    reveal(spec_tx_block);
    lemma_tx_size(text.len() as int);
}

/// The segments of a sequence split at `i` are the segments of each part.
pub proof fn lemma_segments_len_split(gs: Seq<BusLogWriterView>, i: int)
    requires
        0 <= i <= gs.len(),
    ensures
        spec_segments_len(gs) == spec_segments_len(gs.take(i)) + spec_segments_len(gs.skip(i)),
        spec_segments_len(gs) >= 0,
    decreases i,
{
    lemma_segments_len_nonneg(gs);
    if i > 0 {
        lemma_segments_len_split(gs.drop_first(), i - 1);
        assert(gs.take(i).drop_first() =~= gs.drop_first().take(i - 1));
        assert(gs.skip(i) =~= gs.drop_first().skip(i - 1));
        assert(gs.take(i)[0] == gs[0]);
    } else {
        assert(gs.skip(0) =~= gs);
    }
}

/// Segment sizes are not negative.
pub proof fn lemma_segments_len_nonneg(gs: Seq<BusLogWriterView>)
    ensures
        spec_segments_len(gs) >= 0,
    decreases gs.len(),
{
    if gs.len() > 0 {
        lemma_segments_len_nonneg(gs.drop_first());
        lemma_tx_size(gs[0].group_name.len() as int);
        lemma_tx_size(gs[0].data_name.len() as int);
    }
}

/// The largest frame a record may hold, so that its bit count fits in 32 bits.
pub const MAX_FRAME_SIZE: usize = 0x1000_0000;

/// Collects the records of one bus-logging channel group and writes them as an MDF file.
pub struct BusLogWriter {
    group_name: Vec<u8>,
    data_name: Vec<u8>,
    frame_size: usize,
    records: Vec<u8>,
    count: u64,
}

impl View for BusLogWriter {
    type V = BusLogWriterView;

    closed spec fn view(&self) -> BusLogWriterView {
        BusLogWriterView {
            group_name: self.group_name@,
            data_name: self.data_name@,
            frame_size: self.frame_size as nat,
            records: self.records@,
            count: self.count,
        }
    }
}

/// Appends the header of a block.
fn push_header(out: &mut Vec<u8>, x: u8, y: u8, length: u64, links: u64)
    ensures
        final(out)@ == old(out)@ + block_header(x, y, length, links),
{
    out.push(0x23);
    out.push(0x23);
    out.push(x);
    out.push(y);
    push_le32(out, 0);
    push_le64(out, length);
    push_le64(out, links);
    assert(final(out)@ =~= old(out)@ + block_header(x, y, length, links));
}

/// Appends the identification block.
fn push_id_block(out: &mut Vec<u8>)
    ensures
        final(out)@ == old(out)@ + spec_id_block(),
{
    let a: [u8; 8] = [0x4D, 0x44, 0x46, 0x20, 0x20, 0x20, 0x20, 0x20];
    let b: [u8; 8] = [0x34, 0x2E, 0x31, 0x30, 0x20, 0x20, 0x20, 0x20];
    let c: [u8; 8] = [0x6D, 0x64, 0x66, 0x34, 0x2D, 0x72, 0x73, 0x20];
    push_slice(out, &a);
    push_slice(out, &b);
    push_slice(out, &c);
    push_zeros(out, 4);
    push_le16(out, 410);
    push_zeros(out, 30);
    push_le16(out, 0);
    push_le16(out, 0);
    assert(a@ =~= seq![0x4Du8, 0x44, 0x46, 0x20, 0x20, 0x20, 0x20, 0x20]);
    assert(b@ =~= seq![0x34u8, 0x2E, 0x31, 0x30, 0x20, 0x20, 0x20, 0x20]);
    assert(c@ =~= seq![0x6Du8, 0x64, 0x66, 0x34, 0x2D, 0x72, 0x73, 0x20]);
    reveal(spec_id_block);
    assert(final(out)@ =~= old(out)@ + spec_id_block());
}

/// Appends the HD block.
fn push_hd_block(out: &mut Vec<u8>, dg: u64)
    ensures
        final(out)@ == old(out)@ + spec_hd_block(dg),
{
    push_header(out, 0x48, 0x44, 104, 6);
    push_le64(out, dg);
    push_le64(out, 0);
    push_le64(out, 0);
    push_le64(out, 0);
    push_le64(out, 0);
    push_le64(out, 0);
    push_zeros(out, 32);
    reveal(spec_hd_block);
    assert(final(out)@ =~= old(out)@ + spec_hd_block(dg));
}

/// Appends the DG block.
fn push_dg_block(out: &mut Vec<u8>, next: u64, cg: u64, data: u64)
    ensures
        final(out)@ == old(out)@ + spec_dg_block(next, cg, data),
{
    push_header(out, 0x44, 0x47, 64, 4);
    push_le64(out, next);
    push_le64(out, cg);
    push_le64(out, data);
    push_le64(out, 0);
    push_zeros(out, 8);
    reveal(spec_dg_block);
    assert(final(out)@ =~= old(out)@ + spec_dg_block(next, cg, data));
}

/// Appends the CG block.
fn push_cg_block(out: &mut Vec<u8>, cn: u64, name: u64, count: u64, data_bytes: u32)
    ensures
        final(out)@ == old(out)@ + spec_cg_block(cn, name, count, data_bytes),
{
    push_header(out, 0x43, 0x47, 104, 6);
    push_le64(out, 0);
    push_le64(out, cn);
    push_le64(out, name);
    push_le64(out, 0);
    push_le64(out, 0);
    push_le64(out, 0);
    push_le64(out, 0);
    push_le64(out, count);
    push_le16(out, 0);
    push_le16(out, 0);
    push_zeros(out, 4);
    push_le32(out, data_bytes);
    push_le32(out, 0);
    reveal(spec_cg_block);
    assert(final(out)@ =~= old(out)@ + spec_cg_block(cn, name, count, data_bytes));
}

/// Appends a CN block.
fn push_cn_block(
    out: &mut Vec<u8>,
    next: u64,
    name: u64,
    cc: u64,
    cn_type: u8,
    sync_type: u8,
    data_type: u8,
    byte_offset: u32,
    bit_count: u32,
)
    ensures
        final(out)@ == old(out)@ + spec_cn_block(
            next,
            name,
            cc,
            cn_type,
            sync_type,
            data_type,
            byte_offset,
            bit_count,
        ),
{
    push_header(out, 0x43, 0x4E, 160, 8);
    push_le64(out, next);
    push_le64(out, 0);
    push_le64(out, name);
    push_le64(out, 0);
    push_le64(out, cc);
    push_le64(out, 0);
    push_le64(out, 0);
    push_le64(out, 0);
    out.push(cn_type);
    out.push(sync_type);
    out.push(data_type);
    out.push(0);
    push_le32(out, byte_offset);
    push_le32(out, bit_count);
    push_le32(out, 0);
    push_le32(out, 0);
    out.push(0);
    out.push(0);
    push_le16(out, 0);
    push_zeros(out, 48);
    reveal(spec_cn_block);
    assert(final(out)@ =~= old(out)@ + spec_cn_block(
        next,
        name,
        cc,
        cn_type,
        sync_type,
        data_type,
        byte_offset,
        bit_count,
    ));
}

/// Appends the CC block.
fn push_cc_block(out: &mut Vec<u8>)
    ensures
        final(out)@ == old(out)@ + spec_cc_block(),
{
    push_header(out, 0x43, 0x43, 96, 4);
    push_le64(out, 0);
    push_le64(out, 0);
    push_le64(out, 0);
    push_le64(out, 0);
    out.push(1);
    out.push(0);
    push_le16(out, 0);
    push_le16(out, 0);
    push_le16(out, 2);
    push_zeros(out, 16);
    push_le64(out, 0);
    push_le64(out, MICROS_TO_SECONDS_BITS);
    reveal(spec_cc_block);
    assert(final(out)@ =~= old(out)@ + spec_cc_block());
}

/// The size of the TX block for `n` text bytes, when it fits in a `u64`.
fn tx_block_size(n: usize) -> (r: Option<u64>)
    ensures
        r matches Some(v) ==> v == tx_size(n as int),
        r is None <==> tx_size(n as int) > u64::MAX,
{
    let m = n as u64;
    if m > u64::MAX - 32 {
        assert(tx_size(n as int) > u64::MAX) by (nonlinear_arith)
            requires
                n > u64::MAX - 32,
        ;
        None
    } else {
        let r = ((m + 32) / 8) * 8;
        Some(r)
    }
}

/// Appends the TX block that holds `text`.
fn push_tx_block(out: &mut Vec<u8>, text: &[u8], size: u64)
    requires
        size == tx_size(text@.len() as int),
    ensures
        final(out)@ == old(out)@ + spec_tx_block(text@),
{
    let n = text.len();
    assert(size >= 24 + n + 1) by (nonlinear_arith)
        requires
            size == ((n + 32) / 8) * 8,
    ;
    push_header(out, 0x54, 0x58, size, 0);
    push_slice(out, text);
    push_zeros(out, (size - 24 - n as u64) as usize);
    reveal(spec_tx_block);
    assert(final(out)@ =~= old(out)@ + spec_tx_block(text@));
}

/// Appends the fixed blocks of a segment.
#[verifier::rlimit(40)]
fn push_segment_head(out: &mut Vec<u8>, b: u64, next: u64, data_link: u64, count: u64, rec_bytes: u32, tx_data: u64, bits: u32)
    requires
        b + 624 <= u64::MAX,
    ensures
        final(out)@ == old(out)@ + spec_segment_head(b as int, next, data_link, count, rec_bytes, tx_data, bits),
{
    let ghost o = out@;
    push_dg_block(out, next, b + 64, data_link);
    push_cg_block(out, b + 168, b + 624, count, rec_bytes);
    let ghost x = spec_dg_block(next, (b + 64) as u64, data_link) + spec_cg_block((b + 168) as u64, (b + 624) as u64, count, rec_bytes);
    assert(out@ =~= o + x);
    push_cn_block(out, b + 328, b + 584, b + 488, 2, 1, 0, 0, 64);
    push_cn_block(out, 0, tx_data, 0, 0, 0, 10, 8, bits);
    let ghost y = x + spec_cn_block((b + 328) as u64, (b + 584) as u64, (b + 488) as u64, 2, 1, 0, 0, 64) + spec_cn_block(0, tx_data, 0, 0, 0, 10, 8, bits);
    assert(out@ =~= o + y);
    push_cc_block(out);
    reveal(spec_segment_head);
    assert(spec_segment_head(b as int, next, data_link, count, rec_bytes, tx_data, bits) == y + spec_cc_block());
    assert(final(out)@ =~= old(out)@ + spec_segment_head(b as int, next, data_link, count, rec_bytes, tx_data, bits));
}

impl BusLogWriter {
    /// The writer's sizes are consistent: every record is the timestamp and one frame.
    pub closed spec fn wf(&self) -> bool {
        &&& self.frame_size <= MAX_FRAME_SIZE
        &&& self.records@.len() == self.count * (8 + self.frame_size)
    }

    /// A writer with no records yet.
    pub fn new(group_name: Vec<u8>, data_name: Vec<u8>, frame_size: usize) -> (r: Self)
        requires
            frame_size <= MAX_FRAME_SIZE,
        ensures
            r.wf(),
            r@ == (BusLogWriterView {
                group_name: group_name@,
                data_name: data_name@,
                frame_size: frame_size as nat,
                records: Seq::empty(),
                count: 0,
            }),
    {
        Self { group_name, data_name, frame_size, records: Vec::new(), count: 0 }
    }

    /// The number of bytes each record gives the frame.
    pub fn frame_size(&self) -> (r: usize)
        ensures
            r == self@.frame_size,
    {
        self.frame_size
    }

    /// The number of records written.
    pub fn record_count(&self) -> (r: u64)
        ensures
            r == self@.count,
    {
        self.count
    }

    /// Appends one record: the timestamp (little-endian) and the frame bytes. Fails,
    /// changing nothing, when the record counter is full.
    pub fn write_record(&mut self, timestamp_us: u64, frame: &[u8]) -> (r: Result<(), MdfError>)
        requires
            old(self).wf(),
            frame@.len() == old(self)@.frame_size,
        ensures
            final(self).wf(),
            r is Err <==> old(self)@.count == u64::MAX,
            r is Err ==> r == Err::<(), MdfError>(MdfError::RecordCountOverflow) && final(self)@
                == old(self)@,
            r is Ok ==> final(self)@ == (BusLogWriterView {
                records: old(self)@.records + le64(timestamp_us) + frame@,
                count: (old(self)@.count + 1) as u64,
                ..old(self)@
            }),
    {
        if self.count == u64::MAX {
            return Err(MdfError::RecordCountOverflow);
        }
        push_le64(&mut self.records, timestamp_us);
        push_slice(&mut self.records, frame);
        let ghost c = self.count as int;
        let ghost k = 8 + self.frame_size as int;
        assert((c + 1) * k == c * k + k) by (nonlinear_arith);
        self.count = self.count + 1;
        Ok(())
    }

    /// The size of this group's segment, when it fits in a `u64`.
    fn segment_len(&self) -> (r: Option<u64>)
        requires
            self.wf(),
        ensures
            r matches Some(v) ==> v == spec_segment_len(self@),
            r is None <==> spec_segment_len(self@) > u64::MAX,
    {
        proof {
            lemma_tx_size(self.group_name@.len() as int);
            lemma_tx_size(self.data_name@.len() as int);
        }
        let g_size = match tx_block_size(self.group_name.len()) {
            Some(v) => v,
            None => {
                return None;
            },
        };
        let d_size = match tx_block_size(self.data_name.len()) {
            Some(v) => v,
            None => {
                return None;
            },
        };
        if g_size > u64::MAX - 624 || d_size > u64::MAX - 624 - g_size {
            return None;
        }
        let l = 624 + g_size + d_size;
        let n = self.records.len() as u64;
        if n > 0 {
            if n > u64::MAX - 24 || l > u64::MAX - 24 - n {
                return None;
            }
            Some(l + 24 + n)
        } else {
            Some(l)
        }
    }

    /// Appends this group's segment at `b`, whose DG block links to `next`.
    fn push_segment(&self, out: &mut Vec<u8>, b: u64, next: u64)
        requires
            self.wf(),
            b + spec_segment_len(self@) <= u64::MAX,
        ensures
            final(out)@ == old(out)@ + spec_segment(b as int, next, self@),
    {
        proof {
            lemma_tx_size(self.group_name@.len() as int);
            lemma_tx_size(self.data_name@.len() as int);
        }
        let g_size = ((self.group_name.len() as u64 + 32) / 8) * 8;
        let d_size = ((self.data_name.len() as u64 + 32) / 8) * 8;
        let tx_data = b + 624 + g_size;
        let dt = tx_data + d_size;
        let n = self.records.len();
        let data_link: u64 = if n > 0 { dt } else { 0 };
        let rec_bytes = (8 + self.frame_size) as u32;
        let bits = (self.frame_size * 8) as u32;
        push_segment_head(out, b, next, data_link, self.count, rec_bytes, tx_data, bits);
        let ghost before = old(out)@;
        let ghost head = out@;
        let t: [u8; 9] = [0x54, 0x69, 0x6D, 0x65, 0x73, 0x74, 0x61, 0x6D, 0x70];
        assert(t@ =~= timestamp_name());
        push_tx_block(out, &t, 40);
        push_tx_block(out, self.group_name.as_slice(), g_size);
        push_tx_block(out, self.data_name.as_slice(), d_size);
        let ghost texts = out@;
        if n > 0 {
            push_header(out, 0x44, 0x54, 24 + n as u64, 0);
            push_slice(out, self.records.as_slice());
            reveal(spec_dt_block);
            assert(out@ =~= texts + spec_dt_block(self.records@));
        } else {
            assert(out@ =~= texts + Seq::<u8>::empty());
        }
        assert(out@ =~= before + spec_segment(b as int, next, self@));
    }

    /// Writes the whole file of this one group. Fails when it would be larger than a
    /// 64-bit offset can address.
    pub fn finalize(&self) -> (r: Result<Vec<u8>, MdfError>)
        requires
            self.wf(),
        ensures
            r is Err <==> spec_file_len(self@.group_name, self@.data_name, self@.records)
                > u64::MAX,
            r is Err ==> r == Err::<Vec<u8>, MdfError>(MdfError::FileTooLarge),
            r matches Ok(bytes) ==> bytes@ == spec_bus_file(self@),
    {
        let l = match self.segment_len() {
            Some(v) => v,
            None => {
                return Err(MdfError::FileTooLarge);
            },
        };
        if l > u64::MAX - FIRST_SEGMENT {
            return Err(MdfError::FileTooLarge);
        }
        let mut out: Vec<u8> = Vec::new();
        push_id_block(&mut out);
        push_hd_block(&mut out, FIRST_SEGMENT);
        self.push_segment(&mut out, FIRST_SEGMENT, 0);
        proof {
            let gs = seq![self@];
            assert(gs.drop_first() =~= Seq::<BusLogWriterView>::empty());
            assert(spec_segments(gs.drop_first(), FIRST_SEGMENT + spec_segment_len(self@)) =~= Seq::<u8>::empty());
            assert(spec_segments(gs, FIRST_SEGMENT as int) =~= spec_segment(FIRST_SEGMENT as int, 0, self@));
        }
        assert(out@ =~= spec_bus_file(self@));
        Ok(out)
    }
}

/// The views of group writers.
pub open spec fn writer_views(v: Seq<BusLogWriter>) -> Seq<BusLogWriterView> {
    v.map_values(|w: BusLogWriter| w@)
}

/// Whether every group writer is consistent.
pub open spec fn all_wf(v: Seq<BusLogWriter>) -> bool {
    forall|i: int| 0 <= i < v.len() ==> (#[trigger] v[i]).wf()
}

/// Writes the MDF file of several groups, in order. Fails when it would be larger than
/// a 64-bit offset can address.
pub fn finalize_groups(groups: &Vec<BusLogWriter>) -> (r: Result<Vec<u8>, MdfError>)
    requires
        all_wf(groups@),
    ensures
        r is Err <==> spec_log_len(writer_views(groups@)) > u64::MAX,
        r is Err ==> r == Err::<Vec<u8>, MdfError>(MdfError::FileTooLarge),
        r matches Ok(bytes) ==> bytes@ == spec_log_file(writer_views(groups@)),
{
    let ghost gs = writer_views(groups@);
    let n = groups.len();
    let mut out: Vec<u8> = Vec::new();
    push_id_block(&mut out);
    push_hd_block(&mut out, if n > 0 { FIRST_SEGMENT } else { 0 });
    let mut base: u64 = FIRST_SEGMENT;
    let mut i: usize = 0;
    proof {
        assert(gs.skip(0) =~= gs);
        assert(gs.take(0) =~= Seq::<BusLogWriterView>::empty());
        assert(gs.len() == n);
    }
    while i < n
        invariant
            n == groups@.len(),
            gs == writer_views(groups@),
            all_wf(groups@),
            i <= n,
            base == FIRST_SEGMENT + spec_segments_len(gs.take(i as int)),
            spec_log_file(gs) == out@ + spec_segments(gs.skip(i as int), base as int),
        decreases n - i,
    {
        let g = &groups[i];
        assert(gs[i as int] == g@);
        proof {
            lemma_segments_len_split(gs, i as int);
            lemma_segments_len_split(gs.skip(i as int), 1);
            lemma_segments_len_nonneg(gs.skip(i + 1));
            assert(gs.skip(i as int).take(1) =~= seq![g@]);
            assert(gs.skip(i as int).skip(1) =~= gs.skip(i + 1));
            assert(seq![g@].drop_first() =~= Seq::<BusLogWriterView>::empty());
        }
        let l = match g.segment_len() {
            Some(v) => v,
            None => {
                return Err(MdfError::FileTooLarge);
            },
        };
        if l > u64::MAX - base {
            return Err(MdfError::FileTooLarge);
        }
        let next: u64 = if i + 1 < n { base + l } else { 0 };
        let ghost before = out@;
        g.push_segment(&mut out, base, next);
        proof {
            let rest = gs.skip(i as int);
            assert(rest[0] == g@);
            assert(rest.drop_first() =~= gs.skip(i + 1));
            assert(spec_segments(rest, base as int) == spec_segment(base as int, next, g@)
                + spec_segments(gs.skip(i + 1), base + l));
            assert(gs.take(i + 1) =~= gs.take(i as int).push(g@));
            lemma_segments_len_split(gs.take(i + 1), i as int);
            assert(gs.take(i + 1).take(i as int) =~= gs.take(i as int));
            assert(gs.take(i + 1).skip(i as int) =~= seq![g@]);
        }
        base = base + l;
        i = i + 1;
    }
    proof {
        assert(gs.take(n as int) =~= gs);
        assert(gs.skip(n as int) =~= Seq::<BusLogWriterView>::empty());
    }
    assert(out@ =~= spec_log_file(gs));
    Ok(out)
}

} // verus!

//! A lightweight index of an MDF file: its channel groups, their channels and where
//! their data blocks lie, for reading channel data by byte range.

use vstd::prelude::*;
use crate::blocks::DataType;
use crate::error::MdfError;
use crate::text::{name_is, name_matches};
use crate::reader::opt_view;

verus! {

/// Location and metadata for a data block within the MDF file.
#[derive(Debug, Clone, Copy)]
pub struct DataBlockInfo {
    /// Absolute file offset where the block header starts (the data follows 24 bytes on).
    pub file_offset: u64,
    /// Total size of the block including the 24-byte header.
    pub size: u64,
    /// Whether this block contains compressed data (DZ block).
    pub is_compressed: bool,
}

/// Metadata for a single channel, containing what is needed to locate its values.
#[derive(Debug, Clone)]
pub struct IndexedChannel {
    /// Channel name.
    pub name: Option<String>,
    /// Physical unit.
    pub unit: Option<String>,
    /// Data type determining how raw bytes are interpreted.
    pub data_type: DataType,
    /// Byte offset within each record (after record ID bytes).
    pub byte_offset: u32,
    /// Bit offset within the starting byte (0-7).
    pub bit_offset: u8,
    /// Number of bits for this channel's raw value.
    pub bit_count: u32,
    /// Channel type (0=data, 1=VLSD, 2=master, etc.).
    pub channel_type: u8,
    /// Channel flags.
    pub flags: u32,
    /// Position of invalidation bit within invalidation bytes (if used).
    pub pos_invalidation_bit: u32,
    /// For VLSD channels: file address of signal data blocks.
    pub vlsd_data_address: Option<u64>,
}

/// Metadata and layout for a channel group.
#[derive(Debug, Clone)]
pub struct IndexedChannelGroup {
    /// Group name.
    pub name: Option<String>,
    /// Group comment.
    pub comment: Option<String>,
    /// Size of record ID prefix in bytes (0, 1, 2, 4, or 8).
    pub record_id_size: u8,
    /// Size of channel data portion in each record (bytes).
    pub record_size: u32,
    /// Size of invalidation bytes at end of each record.
    pub invalidation_bytes: u32,
    /// Total number of records (samples) in this group.
    pub record_count: u64,
    /// Channels belonging to this group.
    pub channels: Vec<IndexedChannel>,
    /// Data block locations containing this group's records.
    pub data_blocks: Vec<DataBlockInfo>,
}

/// Complete index of an MDF file for efficient random access.
#[derive(Debug, Clone)]
pub struct MdfIndex {
    /// Size of the indexed file in bytes.
    pub file_size: u64,
    /// All channel groups in the file.
    pub channel_groups: Vec<IndexedChannelGroup>,
}

/// What a channel of the index holds, with its texts as character sequences.
pub struct IndexedChannelView {
    pub name: Option<Seq<char>>,
    pub unit: Option<Seq<char>>,
    pub data_type: DataType,
    pub byte_offset: u32,
    pub bit_offset: u8,
    pub bit_count: u32,
    pub channel_type: u8,
    pub flags: u32,
    pub pos_invalidation_bit: u32,
    pub vlsd_data_address: Option<u64>,
}

/// What a channel group of the index holds.
pub struct IndexedChannelGroupView {
    pub name: Option<Seq<char>>,
    pub comment: Option<Seq<char>>,
    pub record_id_size: u8,
    pub record_size: u32,
    pub invalidation_bytes: u32,
    pub record_count: u64,
    pub channels: Seq<IndexedChannelView>,
    pub data_blocks: Seq<DataBlockInfo>,
}

/// What an index holds.
pub struct MdfIndexView {
    pub file_size: u64,
    pub channel_groups: Seq<IndexedChannelGroupView>,
}

impl View for IndexedChannel {
    type V = IndexedChannelView;

    open spec fn view(&self) -> IndexedChannelView {
        IndexedChannelView {
            name: opt_view(self.name),
            unit: opt_view(self.unit),
            data_type: self.data_type,
            byte_offset: self.byte_offset,
            bit_offset: self.bit_offset,
            bit_count: self.bit_count,
            channel_type: self.channel_type,
            flags: self.flags,
            pos_invalidation_bit: self.pos_invalidation_bit,
            vlsd_data_address: self.vlsd_data_address,
        }
    }
}

impl View for IndexedChannelGroup {
    type V = IndexedChannelGroupView;

    open spec fn view(&self) -> IndexedChannelGroupView {
        IndexedChannelGroupView {
            name: opt_view(self.name),
            comment: opt_view(self.comment),
            record_id_size: self.record_id_size,
            record_size: self.record_size,
            invalidation_bytes: self.invalidation_bytes,
            record_count: self.record_count,
            channels: self.channels@.map_values(|c: IndexedChannel| c@),
            data_blocks: self.data_blocks@,
        }
    }
}

impl View for MdfIndex {
    type V = MdfIndexView;

    open spec fn view(&self) -> MdfIndexView {
        MdfIndexView {
            file_size: self.file_size,
            channel_groups: self.channel_groups@.map_values(|g: IndexedChannelGroup| g@),
        }
    }
}

/// The name shown for an optional name: the name, or `<unnamed>`.
pub open spec fn display_name(n: Option<String>) -> Seq<char> {
    match n {
        Some(s) => s@,
        None => "<unnamed>"@,
    }
}

/// The bytes in one record: record ID, data bytes, invalidation bytes.
pub open spec fn spec_record_total(g: IndexedChannelGroup) -> int {
    g.record_id_size + g.record_size + g.invalidation_bytes
}

/// The byte of a record where a channel's value starts.
pub open spec fn spec_channel_offset(g: IndexedChannelGroup, c: IndexedChannel) -> int {
    g.record_id_size + c.byte_offset
}

/// The bytes a channel's value takes in each record: whole bytes for byte sequences,
/// else the bytes its bit field touches (at least one).
pub open spec fn spec_channel_bytes(c: IndexedChannel) -> int {
    if c.data_type.spec_is_byte_sequence() {
        (c.bit_count / 8) as int
    } else {
        let b = (c.bit_offset + c.bit_count + 7) / 8;
        if b < 1 {
            1
        } else {
            b
        }
    }
}

/// Whether a value fits in a `u64`.
pub open spec fn fits_u64(v: int) -> bool {
    0 <= v <= u64::MAX
}

/// The byte ranges `(offset, length)` of one channel for records `start..end`, walking
/// the data blocks from block `i` on, `processed` records having come before it. A block
/// whose records overlap the wanted ones gives one range from the channel's bytes in the
/// first wanted record to those in the last. The walk stops after the block that reaches
/// `end`; a compressed block before that is an error, and so are sizes no file has.
pub open spec fn spec_ranges_from(
    blocks: Seq<DataBlockInfo>,
    i: int,
    rs: int,
    off: int,
    cb: int,
    start: int,
    end: int,
    processed: int,
) -> Result<Seq<(u64, u64)>, MdfError>
    decreases blocks.len() - i,
{
    if i >= blocks.len() || i < 0 {
        Ok(Seq::empty())
    } else {
        let b = blocks[i];
        if b.is_compressed {
            Err(MdfError::Unsupported)
        } else if b.size < 24 || rs <= 0 {
            Err(MdfError::MalformedIndex)
        } else {
            let n = (b.size - 24) / rs;
            let be = processed + n;
            let ns = if start > processed { start } else { processed };
            let ne = if end < be { end } else { be };
            let first = b.file_offset + 24 + (ns - processed) * rs + off;
            let len = (ne - ns - 1) * rs + cb;
            if !fits_u64(be) {
                Err(MdfError::MalformedIndex)
            } else if ns < ne && (!fits_u64(first) || !fits_u64(first + len - 1) || len < 1) {
                Err(MdfError::MalformedIndex)
            } else {
                let here: Seq<(u64, u64)> = if ns < ne {
                    seq![(first as u64, len as u64)]
                } else {
                    Seq::empty()
                };
                if be >= end {
                    Ok(here)
                } else {
                    match spec_ranges_from(blocks, i + 1, rs, off, cb, start, end, be) {
                        Ok(rest) => Ok(here + rest),
                        Err(e) => Err(e),
                    }
                }
            }
        }
    }
}

/// The byte ranges of a channel for records `start..start + count`.
pub open spec fn spec_channel_ranges(
    g: IndexedChannelGroup,
    c: IndexedChannel,
    start: int,
    count: int,
) -> Result<Seq<(u64, u64)>, MdfError> {
    spec_ranges_from(
        g.data_blocks@,
        0,
        spec_record_total(g),
        spec_channel_offset(g, c),
        spec_channel_bytes(c),
        start,
        start + count,
        0,
    )
}

/// Whether a channel's values live in signal data blocks rather than in the records.
pub open spec fn spec_is_vlsd(c: IndexedChannel) -> bool {
    c.channel_type == 1 && c.vlsd_data_address is Some
}

/// The first index at or after `i` whose group has name `q`.
pub open spec fn spec_first_group_named(gs: Seq<IndexedChannelGroup>, q: Seq<char>) -> Option<usize> {
    if exists|i: int| 0 <= i < gs.len() && name_is(#[trigger] gs[i].name, q) {
        let i = choose|i: int|
            0 <= i < gs.len() && name_is(#[trigger] gs[i].name, q) && forall|j: int|
                0 <= j < i ==> !name_is(#[trigger] gs[j].name, q);
        Some(i as usize)
    } else {
        None
    }
}

/// Whether `(g, c)` names a channel called `q`.
pub open spec fn spec_channel_named(gs: Seq<IndexedChannelGroup>, g: int, c: int, q: Seq<char>) -> bool {
    0 <= g < gs.len() && 0 <= c < gs[g].channels@.len() && name_is(gs[g].channels@[c].name, q)
}

/// Whether `(g1, c1)` comes before `(g2, c2)`: group first, then channel.
pub open spec fn lex_before(g1: int, c1: int, g2: int, c2: int) -> bool {
    g1 < g2 || (g1 == g2 && c1 < c2)
}

/// Whether `(g, c)` is the first channel, in group then channel order, called `q`.
pub open spec fn is_first_named(gs: Seq<IndexedChannelGroup>, g: int, c: int, q: Seq<char>) -> bool {
    &&& spec_channel_named(gs, g, c, q)
    &&& forall|g2: int, c2: int| lex_before(g2, c2, g, c) ==> !#[trigger] spec_channel_named(gs, g2, c2, q)
}

/// The first channel, in group then channel order, called `q`, if any.
pub open spec fn spec_first_named(gs: Seq<IndexedChannelGroup>, q: Seq<char>) -> Option<(int, int)> {
    if exists|g: int, c: int| #[trigger] is_first_named(gs, g, c, q) {
        Some(choose|g: int, c: int| #[trigger] is_first_named(gs, g, c, q))
    } else {
        None
    }
}

/// The first channel called `q` is the one found first.
pub proof fn lemma_first_named(gs: Seq<IndexedChannelGroup>, q: Seq<char>, g: int, c: int)
    requires
        is_first_named(gs, g, c, q),
    ensures
        spec_first_named(gs, q) == Some((g, c)),
{
    let (g1, c1) = choose|g: int, c: int| #[trigger] is_first_named(gs, g, c, q);
    assert(is_first_named(gs, g1, c1, q));
    if (g1, c1) != (g, c) {
        if lex_before(g1, c1, g, c) {
            assert(!spec_channel_named(gs, g1, c1, q));
        } else {
            assert(lex_before(g, c, g1, c1));
            assert(!spec_channel_named(gs, g, c, q));
        }
    }
}

/// When no channel is called `q`, there is no first one.
pub proof fn lemma_none_named(gs: Seq<IndexedChannelGroup>, q: Seq<char>)
    requires
        forall|g2: int, c2: int| !#[trigger] spec_channel_named(gs, g2, c2, q),
    ensures
        spec_first_named(gs, q) is None,
{
    if exists|g: int, c: int| #[trigger] is_first_named(gs, g, c, q) {
        let (g1, c1) = choose|g: int, c: int| #[trigger] is_first_named(gs, g, c, q);
        assert(spec_channel_named(gs, g1, c1, q));
    }
}

/// All `(group, channel)` positions of channels called `q`, in order.
pub open spec fn spec_all_named(gs: Seq<IndexedChannelGroup>, q: Seq<char>, g: int) -> Seq<(usize, usize)>
    decreases g,
{
    if g <= 0 {
        Seq::empty()
    } else {
        spec_all_named(gs, q, g - 1) + spec_named_in(gs, q, g - 1, gs[g - 1].channels@.len() as int)
    }
}

/// The positions of channels called `q` among the first `c` channels of group `g`.
pub open spec fn spec_named_in(gs: Seq<IndexedChannelGroup>, q: Seq<char>, g: int, c: int) -> Seq<(usize, usize)>
    decreases c,
{
    if c <= 0 {
        Seq::empty()
    } else {
        spec_named_in(gs, q, g, c - 1) + if name_is(gs[g].channels@[c - 1].name, q) {
            seq![(g as usize, (c - 1) as usize)]
        } else {
            Seq::empty()
        }
    }
}

/// The positions of channels called `q` among the first `cn` channels of group `g`
/// are empty exactly when none of them is so called, and otherwise begin with the
/// first that is.
proof fn lemma_named_in(gs: Seq<IndexedChannelGroup>, q: Seq<char>, g: int, cn: int)
    requires
        0 <= g < gs.len() <= usize::MAX,
        0 <= cn <= gs[g].channels@.len() <= usize::MAX,
    ensures
        (spec_named_in(gs, q, g, cn).len() == 0) <==> (forall|c: int| 0 <= c < cn ==> !#[trigger] spec_channel_named(gs, g, c, q)),
        spec_named_in(gs, q, g, cn).len() > 0 ==> {
            let e = spec_named_in(gs, q, g, cn)[0];
            &&& e.0 as int == g
            &&& 0 <= e.1 < cn
            &&& spec_channel_named(gs, g, e.1 as int, q)
            &&& forall|c: int| 0 <= c < e.1 ==> !#[trigger] spec_channel_named(gs, g, c, q)
        },
    decreases cn,
{
    if cn > 0 {
        lemma_named_in(gs, q, g, cn - 1);
        let prev = spec_named_in(gs, q, g, cn - 1);
        let hit = name_is(gs[g].channels@[cn - 1].name, q);
        assert(hit == spec_channel_named(gs, g, cn - 1, q));
        if prev.len() > 0 {
            assert(spec_named_in(gs, q, g, cn)[0] == prev[0]);
        } else if hit {
            assert(spec_named_in(gs, q, g, cn) =~= seq![(g as usize, (cn - 1) as usize)]);
        } else {
            assert(spec_named_in(gs, q, g, cn) =~= prev);
        }
    }
}

/// The positions of channels called `q` in the first `gn` groups are empty exactly
/// when no channel there is so called, and otherwise begin with the first that is.
proof fn lemma_all_named(gs: Seq<IndexedChannelGroup>, q: Seq<char>, gn: int)
    requires
        0 <= gn <= gs.len() <= usize::MAX,
        forall|g: int| 0 <= g < gs.len() ==> (#[trigger] gs[g]).channels@.len() <= usize::MAX,
    ensures
        (spec_all_named(gs, q, gn).len() == 0) <==> (forall|g: int, c: int| 0 <= g < gn ==> !#[trigger] spec_channel_named(gs, g, c, q)),
        spec_all_named(gs, q, gn).len() > 0 ==> is_first_named(gs, spec_all_named(gs, q, gn)[0].0 as int, spec_all_named(gs, q, gn)[0].1 as int, q),
    decreases gn,
{
    if gn > 0 {
        let g = gn - 1;
        lemma_all_named(gs, q, g);
        let cn = gs[g].channels@.len() as int;
        lemma_named_in(gs, q, g, cn);
        let prev = spec_all_named(gs, q, g);
        let here = spec_named_in(gs, q, g, cn);
        assert(spec_all_named(gs, q, gn) == prev + here);
        if prev.len() > 0 {
            assert(spec_all_named(gs, q, gn)[0] == prev[0]);
        } else {
            assert(spec_all_named(gs, q, gn) =~= here);
            if here.len() > 0 {
                let e = here[0];
                assert forall|g2: int, c2: int| lex_before(g2, c2, e.0 as int, e.1 as int) implies !#[trigger] spec_channel_named(gs, g2, c2, q) by {
                    if g2 < g {
                        assert(0 <= g2 < g ==> !spec_channel_named(gs, g2, c2, q));
                    } else if g2 == g && 0 <= c2 {
                        assert(0 <= c2 < e.1 ==> !spec_channel_named(gs, g, c2, q));
                    }
                }
            } else {
                assert forall|g2: int, c2: int| 0 <= g2 < gn implies !#[trigger] spec_channel_named(gs, g2, c2, q) by {
                    if g2 < g {
                        assert(0 <= g2 < g ==> !spec_channel_named(gs, g2, c2, q));
                    } else {
                        assert(0 <= c2 < cn ==> !spec_channel_named(gs, g, c2, q));
                    }
                }
            }
        }
        if spec_all_named(gs, q, gn).len() == 0 {
            assert forall|g2: int, c2: int| 0 <= g2 < gn implies !#[trigger] spec_channel_named(gs, g2, c2, q) by {
                if g2 < g {
                    assert(0 <= g2 < g ==> !spec_channel_named(gs, g2, c2, q));
                } else {
                    assert(0 <= c2 < cn ==> !spec_channel_named(gs, g, c2, q));
                }
            }
        }
    }
}

/// The first channel called `q`, in group then channel order, is the first of all
/// channels so called; there is none exactly when no channel is so called. (Group and
/// channel counts fit in `usize`, as those of any index do.)
pub proof fn lemma_first_of_all_named(gs: Seq<IndexedChannelGroup>, q: Seq<char>)
    requires
        gs.len() <= usize::MAX,
        forall|g: int| 0 <= g < gs.len() ==> (#[trigger] gs[g]).channels@.len() <= usize::MAX,
    ensures
        spec_first_named(gs, q) == if spec_all_named(gs, q, gs.len() as int).len() == 0 {
            None
        } else {
            Some((spec_all_named(gs, q, gs.len() as int)[0].0 as int, spec_all_named(gs, q, gs.len() as int)[0].1 as int))
        },
{
    let all = spec_all_named(gs, q, gs.len() as int);
    lemma_all_named(gs, q, gs.len() as int);
    if all.len() == 0 {
        assert forall|g2: int, c2: int| !#[trigger] spec_channel_named(gs, g2, c2, q) by {
            if 0 <= g2 < gs.len() {
                assert(0 <= g2 < gs.len() ==> !spec_channel_named(gs, g2, c2, q));
            }
        }
        lemma_none_named(gs, q);
    } else {
        lemma_first_named(gs, q, all[0].0 as int, all[0].1 as int);
    }
}


/// Ranges found so far, followed by those still to be found.
pub open spec fn spec_after(acc: Seq<(u64, u64)>, rest: Result<Seq<(u64, u64)>, MdfError>) -> Result<Seq<(u64, u64)>, MdfError> {
    match rest {
        Ok(r) => Ok(acc + r),
        Err(e) => Err(e),
    }
}

/// The total length of byte ranges.
pub open spec fn spec_total_len(r: Seq<(u64, u64)>) -> int
    decreases r.len(),
{
    if r.len() == 0 {
        0
    } else {
        spec_total_len(r.drop_last()) + r.last().1
    }
}

/// What the byte-range query of a channel answers: an unknown group or channel is not
/// found, a VLSD channel is not supported, else the ranges of the given records.
pub open spec fn spec_ranges_query(idx: MdfIndex, g: int, c: int, start: int, count: int) -> Result<Seq<(u64, u64)>, MdfError> {
    if g < 0 || g >= idx.channel_groups@.len() {
        Err(MdfError::NotFound)
    } else if c < 0 || c >= idx.channel_groups@[g].channels@.len() {
        Err(MdfError::NotFound)
    } else if spec_is_vlsd(idx.channel_groups@[g].channels@[c]) {
        Err(MdfError::Unsupported)
    } else {
        spec_channel_ranges(idx.channel_groups@[g], idx.channel_groups@[g].channels@[c], start, count)
    }
}

/// The byte ranges of one channel for records `start..end`, from block `0` on.
fn channel_ranges(g: &IndexedChannelGroup, c: &IndexedChannel, start: u64, end: u64) -> (r: Result<Vec<(u64, u64)>, MdfError>)
    ensures
        match r {
            Ok(v) => spec_ranges_from(g.data_blocks@, 0, spec_record_total(*g), spec_channel_offset(*g, *c), spec_channel_bytes(*c), start as int, end as int, 0) == Ok::<Seq<(u64, u64)>, MdfError>(v@),
            Err(e) => spec_ranges_from(g.data_blocks@, 0, spec_record_total(*g), spec_channel_offset(*g, *c), spec_channel_bytes(*c), start as int, end as int, 0) == Err::<Seq<(u64, u64)>, MdfError>(e),
        },
{
    let rs: u64 = g.record_id_size as u64 + g.record_size as u64 + g.invalidation_bytes as u64;
    let off: u64 = g.record_id_size as u64 + c.byte_offset as u64;
    let cb: u64 = if c.data_type.is_byte_sequence() {
        (c.bit_count / 8) as u64
    } else {
        let b = (c.bit_offset as u64 + c.bit_count as u64 + 7) / 8;
        if b < 1 { 1 } else { b }
    };
    let ghost total = spec_ranges_from(g.data_blocks@, 0, rs as int, off as int, cb as int, start as int, end as int, 0);
    let blocks = &g.data_blocks;
    let mut acc: Vec<(u64, u64)> = Vec::new();
    let mut processed: u64 = 0;
    let mut i: usize = 0;
    while i < blocks.len()
        invariant
            blocks@ == g.data_blocks@,
            i <= blocks@.len(),
            total == spec_after(acc@, spec_ranges_from(blocks@, i as int, rs as int, off as int, cb as int, start as int, end as int, processed as int)),
            rs < 0x4_0000_0000,
            off < 0x2_0000_0000,
            cb < 0x2_0000_0000,
            rs == spec_record_total(*g),
            off == spec_channel_offset(*g, *c),
            cb == spec_channel_bytes(*c),
            total == spec_ranges_from(g.data_blocks@, 0, spec_record_total(*g), spec_channel_offset(*g, *c), spec_channel_bytes(*c), start as int, end as int, 0),
        decreases blocks@.len() - i,
    {
        let b = blocks[i];
        if b.is_compressed {
            return Err(MdfError::Unsupported);
        }
        if b.size < 24 || rs == 0 {
            return Err(MdfError::MalformedIndex);
        }
        let n = (b.size - 24) / rs;
        if processed > u64::MAX - n {
            return Err(MdfError::MalformedIndex);
        }
        let be = processed + n;
        let ns = if start > processed { start } else { processed };
        let ne = if end < be { end } else { be };
        let ghost old_acc = acc@;
        let ghost here: Seq<(u64, u64)>;
        if ns < ne {
            let k = (ns - processed) as u128;
            let m = (ne - ns - 1) as u128;
            assert(k * (rs as u128) <= 0xFFFF_FFFF_FFFF_FFFF * 0x4_0000_0000) by (nonlinear_arith)
                requires k <= 0xFFFF_FFFF_FFFF_FFFF, rs < 0x4_0000_0000;
            assert(m * (rs as u128) <= 0xFFFF_FFFF_FFFF_FFFF * 0x4_0000_0000) by (nonlinear_arith)
                requires m <= 0xFFFF_FFFF_FFFF_FFFF, rs < 0x4_0000_0000;
            let first: u128 = b.file_offset as u128 + 24 + k * (rs as u128) + off as u128;
            let len: u128 = m * (rs as u128) + cb as u128;
            if first > 0xFFFF_FFFF_FFFF_FFFF || len < 1 || first + len - 1 > 0xFFFF_FFFF_FFFF_FFFF {
                return Err(MdfError::MalformedIndex);
            }
            acc.push((first as u64, len as u64));
            proof {
                here = seq![(first as u64, len as u64)];
            }
        } else {
            proof {
                here = Seq::empty();
            }
        }
        assert(acc@ =~= old_acc + here);
        if be >= end {
            return Ok(acc);
        }
        proof {
            match spec_ranges_from(blocks@, i + 1, rs as int, off as int, cb as int, start as int, end as int, be as int) {
                Ok(rest) => {
                    assert(old_acc + (here + rest) =~= acc@ + rest);
                },
                Err(_) => {},
            }
        }
        processed = be;
        i = i + 1;
    }
    assert(acc@ + Seq::<(u64, u64)>::empty() =~= acc@);
    Ok(acc)
}

impl MdfIndex {
    /// Get channel information for a specific group and channel.
    pub fn get_channel_info(&self, group_index: usize, channel_index: usize) -> (r: Option<&IndexedChannel>)
        ensures
            r is Some <==> group_index < self.channel_groups@.len() && channel_index
                < self.channel_groups@[group_index as int].channels@.len(),
            r matches Some(c) ==> *c == self.channel_groups@[group_index as int].channels@[channel_index as int],
    {
        if group_index < self.channel_groups.len() {
            let g = &self.channel_groups[group_index];
            if channel_index < g.channels.len() {
                return Some(&g.channels[channel_index]);
            }
        }
        None
    }

    /// List all channel groups: index, name (or `<unnamed>`) and channel count.
    pub fn list_channel_groups(&self) -> (r: Vec<(usize, &str, usize)>)
        ensures
            r@.len() == self.channel_groups@.len(),
            forall|i: int| 0 <= i < r@.len() ==> {
                &&& (#[trigger] r@[i]).0 == i
                &&& r@[i].1@ == display_name(self.channel_groups@[i].name)
                &&& r@[i].2 == self.channel_groups@[i].channels@.len()
            },
    {
        let mut r: Vec<(usize, &str, usize)> = Vec::new();
        let mut i: usize = 0;
        while i < self.channel_groups.len()
            invariant
                i <= self.channel_groups@.len(),
                r@.len() == i,
                forall|k: int| 0 <= k < i ==> {
                    &&& (#[trigger] r@[k]).0 == k
                    &&& r@[k].1@ == display_name(self.channel_groups@[k].name)
                    &&& r@[k].2 == self.channel_groups@[k].channels@.len()
                },
            decreases self.channel_groups@.len() - i,
        {
            let g = &self.channel_groups[i];
            let name: &str = match &g.name {
                Some(s) => s.as_str(),
                None => "<unnamed>",
            };
            r.push((i, name, g.channels.len()));
            i = i + 1;
        }
        r
    }

    /// List all channels in a group: index, name (or `<unnamed>`) and data type.
    pub fn list_channels(&self, group_index: usize) -> (r: Option<Vec<(usize, &str, &DataType)>>)
        ensures
            r is Some <==> group_index < self.channel_groups@.len(),
            r matches Some(v) ==> {
                let cs = self.channel_groups@[group_index as int].channels@;
                &&& v@.len() == cs.len()
                &&& forall|i: int| 0 <= i < v@.len() ==> {
                    &&& (#[trigger] v@[i]).0 == i
                    &&& v@[i].1@ == display_name(cs[i].name)
                    &&& *v@[i].2 == cs[i].data_type
                }
            },
    {
        if group_index >= self.channel_groups.len() {
            return None;
        }
        let g = &self.channel_groups[group_index];
        let mut r: Vec<(usize, &str, &DataType)> = Vec::new();
        let mut i: usize = 0;
        while i < g.channels.len()
            invariant
                i <= g.channels@.len(),
                r@.len() == i,
                forall|k: int| 0 <= k < i ==> {
                    &&& (#[trigger] r@[k]).0 == k
                    &&& r@[k].1@ == display_name(g.channels@[k].name)
                    &&& *r@[k].2 == g.channels@[k].data_type
                },
            decreases g.channels@.len() - i,
        {
            let c = &g.channels[i];
            let name: &str = match &c.name {
                Some(s) => s.as_str(),
                None => "<unnamed>",
            };
            r.push((i, name, &c.data_type));
            i = i + 1;
        }
        Some(r)
    }

    /// Find the first channel group index with a given name.
    pub fn find_channel_group_by_name(&self, group_name: &str) -> (r: Option<usize>)
        ensures
            r matches Some(i) ==> i < self.channel_groups@.len() && name_is(
                self.channel_groups@[i as int].name,
                group_name@,
            ) && forall|j: int| 0 <= j < i ==> !name_is(#[trigger] self.channel_groups@[j].name, group_name@),
            r is None ==> forall|j: int|
                0 <= j < self.channel_groups@.len() ==> !name_is(#[trigger] self.channel_groups@[j].name, group_name@),
    {
        let mut i: usize = 0;
        while i < self.channel_groups.len()
            invariant
                i <= self.channel_groups@.len(),
                forall|j: int| 0 <= j < i ==> !name_is(#[trigger] self.channel_groups@[j].name, group_name@),
            decreases self.channel_groups@.len() - i,
        {
            if name_matches(&self.channel_groups[i].name, group_name) {
                return Some(i);
            }
            i = i + 1;
        }
        None
    }

    /// Find the first channel index with a given name within a group.
    pub fn find_channel_by_name(&self, group_index: usize, channel_name: &str) -> (r: Option<usize>)
        ensures
            r matches Some(c) ==> spec_channel_named(self.channel_groups@, group_index as int, c as int, channel_name@)
                && forall|j: int| 0 <= j < c ==> !name_is(
                    #[trigger] self.channel_groups@[group_index as int].channels@[j].name,
                    channel_name@,
                ),
            r is None ==> group_index >= self.channel_groups@.len() || forall|j: int|
                0 <= j < self.channel_groups@[group_index as int].channels@.len() ==> !name_is(
                    #[trigger] self.channel_groups@[group_index as int].channels@[j].name,
                    channel_name@,
                ),
    {
        if group_index >= self.channel_groups.len() {
            return None;
        }
        let g = &self.channel_groups[group_index];
        let mut i: usize = 0;
        while i < g.channels.len()
            invariant
                group_index < self.channel_groups@.len(),
                *g == self.channel_groups@[group_index as int],
                i <= g.channels@.len(),
                forall|j: int| 0 <= j < i ==> !name_is(#[trigger] g.channels@[j].name, channel_name@),
            decreases g.channels@.len() - i,
        {
            if name_matches(&g.channels[i].name, channel_name) {
                return Some(i);
            }
            i = i + 1;
        }
        None
    }

    /// Find all channels with a given name, in group then channel order.
    pub fn find_all_channels_by_name(&self, channel_name: &str) -> (r: Vec<(usize, usize)>)
        ensures
            r@ == spec_all_named(self.channel_groups@, channel_name@, self.channel_groups@.len() as int),
    {
        let gs = &self.channel_groups;
        let mut r: Vec<(usize, usize)> = Vec::new();
        let mut g: usize = 0;
        while g < gs.len()
            invariant
                gs@ == self.channel_groups@,
                g <= gs@.len(),
                r@ == spec_all_named(gs@, channel_name@, g as int),
            decreases gs@.len() - g,
        {
            let chs = &gs[g].channels;
            let ghost before = r@;
            let mut c: usize = 0;
            while c < chs.len()
                invariant
                    gs@ == self.channel_groups@,
                    g < gs@.len(),
                    chs@ == gs@[g as int].channels@,
                    c <= chs@.len(),
                    r@ == before + spec_named_in(gs@, channel_name@, g as int, c as int),
                decreases chs@.len() - c,
            {
                if name_matches(&chs[c].name, channel_name) {
                    r.push((g, c));
                }
                assert(r@ =~= before + spec_named_in(gs@, channel_name@, g as int, c + 1));
                c = c + 1;
            }
            g = g + 1;
        }
        r
    }

    /// Find the first channel with a given name across all groups (group order, then
    /// channel order).
    pub fn find_channel_by_name_global(&self, channel_name: &str) -> (r: Option<(usize, usize)>)
        ensures
            r matches Some((g, c)) ==> spec_channel_named(self.channel_groups@, g as int, c as int, channel_name@)
                && forall|g2: int, c2: int|
                    lex_before(g2, c2, g as int, c as int) ==> !#[trigger] spec_channel_named(
                        self.channel_groups@,
                        g2,
                        c2,
                        channel_name@,
                    ),
            r is None ==> forall|g2: int, c2: int|
                !#[trigger] spec_channel_named(self.channel_groups@, g2, c2, channel_name@),
    {
        let gs = &self.channel_groups;
        let mut g: usize = 0;
        while g < gs.len()
            invariant
                gs@ == self.channel_groups@,
                g <= gs@.len(),
                forall|g2: int, c2: int|
                    g2 < g ==> !#[trigger] spec_channel_named(gs@, g2, c2, channel_name@),
            decreases gs@.len() - g,
        {
            let chs = &gs[g].channels;
            let mut c: usize = 0;
            while c < chs.len()
                invariant
                    gs@ == self.channel_groups@,
                    g < gs@.len(),
                    chs@ == gs@[g as int].channels@,
                    c <= chs@.len(),
                    forall|g2: int, c2: int|
                        g2 < g ==> !#[trigger] spec_channel_named(gs@, g2, c2, channel_name@),
                    forall|c2: int| c2 < c ==> !#[trigger] spec_channel_named(gs@, g as int, c2, channel_name@),
                decreases chs@.len() - c,
            {
                if name_matches(&chs[c].name, channel_name) {
                    assert(spec_channel_named(gs@, g as int, c as int, channel_name@));
                    assert forall|g2: int, c2: int|
                        lex_before(g2, c2, g as int, c as int) implies !#[trigger] spec_channel_named(
                        gs@,
                        g2,
                        c2,
                        channel_name@,
                    ) by {
                        if g2 == g {
                            assert(c2 < c);
                        }
                    }
                    return Some((g, c));
                }
                c = c + 1;
            }
            g = g + 1;
        }
        None
    }

    /// Get channel information by name (the first channel so named).
    pub fn get_channel_info_by_name(&self, channel_name: &str) -> (r: Option<(usize, usize, &IndexedChannel)>)
        ensures
            r matches Some((g, c, ch)) ==> spec_channel_named(self.channel_groups@, g as int, c as int, channel_name@)
                && *ch == self.channel_groups@[g as int].channels@[c as int] && forall|g2: int, c2: int|
                    lex_before(g2, c2, g as int, c as int) ==> !#[trigger] spec_channel_named(
                        self.channel_groups@,
                        g2,
                        c2,
                        channel_name@,
                    ),
            r is None ==> forall|g2: int, c2: int|
                !#[trigger] spec_channel_named(self.channel_groups@, g2, c2, channel_name@),
    {
        match self.find_channel_by_name_global(channel_name) {
            Some((g, c)) => match self.get_channel_info(g, c) {
                Some(ch) => Some((g, c, ch)),
                None => None,
            },
            None => None,
        }
    }

    /// Get the byte ranges `(file_offset, length)` holding a channel's data for all of
    /// its group's records.
    pub fn get_channel_byte_ranges(&self, group_index: usize, channel_index: usize) -> (r: Result<Vec<(u64, u64)>, MdfError>)
        ensures
            match r {
                Ok(v) => self.get_channel_byte_ranges_spec(group_index, channel_index) == Ok::<Seq<(u64, u64)>, MdfError>(v@),
                Err(e) => self.get_channel_byte_ranges_spec(group_index, channel_index) == Err::<Seq<(u64, u64)>, MdfError>(e),
            },
    {
        if group_index >= self.channel_groups.len() {
            return Err(MdfError::NotFound);
        }
        let g = &self.channel_groups[group_index];
        if channel_index >= g.channels.len() {
            return Err(MdfError::NotFound);
        }
        let c = &g.channels[channel_index];
        if c.channel_type == 1 && c.vlsd_data_address.is_some() {
            return Err(MdfError::Unsupported);
        }
        channel_ranges(g, c, 0, g.record_count)
    }

    /// Get the byte ranges holding a channel's data for records
    /// `start_record..start_record + record_count`.
    pub fn get_channel_byte_ranges_for_records(
        &self,
        group_index: usize,
        channel_index: usize,
        start_record: u64,
        record_count: u64,
    ) -> (r: Result<Vec<(u64, u64)>, MdfError>)
        ensures
            ({
                let q = spec_ranges_query(*self, group_index as int, channel_index as int, start_record as int, record_count as int);
                let past = group_index < self.channel_groups@.len() && start_record + record_count
                    > self.channel_groups@[group_index as int].record_count;
                &&& (group_index >= self.channel_groups@.len() || channel_index >= self.channel_groups@[group_index as int].channels@.len()) ==> r == Err::<Vec<(u64, u64)>, MdfError>(MdfError::NotFound)
                &&& (group_index < self.channel_groups@.len() && channel_index < self.channel_groups@[group_index as int].channels@.len() && past) ==> r == Err::<Vec<(u64, u64)>, MdfError>(MdfError::RecordRangeOutOfBounds)
                &&& (group_index < self.channel_groups@.len() && channel_index < self.channel_groups@[group_index as int].channels@.len() && !past) ==> match r {
                    Ok(v) => q == Ok::<Seq<(u64, u64)>, MdfError>(v@),
                    Err(e) => q == Err::<Seq<(u64, u64)>, MdfError>(e),
                }
            }),
    {
        if group_index >= self.channel_groups.len() {
            return Err(MdfError::NotFound);
        }
        let g = &self.channel_groups[group_index];
        if channel_index >= g.channels.len() {
            return Err(MdfError::NotFound);
        }
        let c = &g.channels[channel_index];
        if start_record > u64::MAX - record_count || start_record + record_count > g.record_count {
            return Err(MdfError::RecordRangeOutOfBounds);
        }
        if c.channel_type == 1 && c.vlsd_data_address.is_some() {
            return Err(MdfError::Unsupported);
        }
        channel_ranges(g, c, start_record, start_record + record_count)
    }

    /// Get the total bytes and the number of ranges to read for a channel.
    pub fn get_channel_byte_summary(&self, group_index: usize, channel_index: usize) -> (r: Result<(u64, usize), MdfError>)
        ensures
            match self.get_channel_byte_ranges_spec(group_index, channel_index) {
                Ok(v) => if spec_total_len(v) <= u64::MAX {
                    r == Ok::<(u64, usize), MdfError>((spec_total_len(v) as u64, v.len() as usize))
                } else {
                    r == Err::<(u64, usize), MdfError>(MdfError::MalformedIndex)
                },
                Err(e) => r == Err::<(u64, usize), MdfError>(e),
            },
    {
        let ranges = self.get_channel_byte_ranges(group_index, channel_index)?;
        let mut total: u64 = 0;
        let mut i: usize = 0;
        while i < ranges.len()
            invariant
                i <= ranges@.len(),
                total == spec_total_len(ranges@.take(i as int)),
                self.get_channel_byte_ranges_spec(group_index, channel_index) == Ok::<Seq<(u64, u64)>, MdfError>(ranges@),
            decreases ranges@.len() - i,
        {
            assert(ranges@.take(i + 1).drop_last() =~= ranges@.take(i as int));
            if total > u64::MAX - ranges[i].1 {
                proof {
                    lemma_total_len_monotone(ranges@, i + 1);
                }
                return Err(MdfError::MalformedIndex);
            }
            total = total + ranges[i].1;
            i = i + 1;
        }
        assert(ranges@.take(ranges@.len() as int) =~= ranges@);
        Ok((total, ranges.len()))
    }

    /// What `get_channel_byte_ranges` answers.
    pub open spec fn get_channel_byte_ranges_spec(&self, group_index: usize, channel_index: usize) -> Result<Seq<(u64, u64)>, MdfError> {
        if group_index >= self.channel_groups@.len() {
            Err(MdfError::NotFound)
        } else {
            spec_ranges_query(*self, group_index as int, channel_index as int, 0, self.channel_groups@[group_index as int].record_count as int)
        }
    }

    /// Get byte ranges for the first channel with a given name (not found when no
    /// channel has it).
    pub fn get_channel_byte_ranges_by_name(&self, channel_name: &str) -> (r: Result<Vec<(u64, u64)>, MdfError>)
        ensures
            match spec_first_named(self.channel_groups@, channel_name@) {
                None => r == Err::<Vec<(u64, u64)>, MdfError>(MdfError::NotFound),
                Some((g, c)) => match r {
                    Ok(v) => self.get_channel_byte_ranges_spec(g as usize, c as usize) == Ok::<Seq<(u64, u64)>, MdfError>(v@),
                    Err(e) => self.get_channel_byte_ranges_spec(g as usize, c as usize) == Err::<Seq<(u64, u64)>, MdfError>(e),
                },
            },
    {
        match self.find_channel_by_name_global(channel_name) {
            Some((g, c)) => {
                proof {
                    lemma_first_named(self.channel_groups@, channel_name@, g as int, c as int);
                }
                self.get_channel_byte_ranges(g, c)
            },
            None => {
                proof {
                    lemma_none_named(self.channel_groups@, channel_name@);
                }
                Err(MdfError::NotFound)
            },
        }
    }
}

/// Adding more ranges never lowers the total.
pub proof fn lemma_total_len_monotone(r: Seq<(u64, u64)>, k: int)
    requires
        0 <= k <= r.len(),
    ensures
        spec_total_len(r.take(k)) <= spec_total_len(r),
    decreases r.len() - k,
{
    if k < r.len() {
        assert(r.take(k + 1).drop_last() =~= r.take(k));
        lemma_total_len_monotone(r, k + 1);
    } else {
        assert(r.take(k) =~= r);
    }
}

} // verus!

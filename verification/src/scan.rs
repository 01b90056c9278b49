//! Building an index by following the block chains of an MDF file through a
//! byte-range reader: data groups, their channel groups, their channels, and the
//! data blocks (plain, compressed, or listed by DL and HL blocks) that hold records.

use vstd::prelude::*;
use crate::blocks::DataType;
use crate::error::MdfError;
use crate::index::{
    DataBlockInfo, IndexedChannel, IndexedChannelGroup, IndexedChannelGroupView,
    IndexedChannelView, MdfIndex, MdfIndexView,
};
use crate::reader::{
    exact_source, has_id, id_is, opt_view, read_exact, read_follows, read_text_block, read_u32_at,
    read_u64_at, spec_read, spec_text, u32_at, u64_at, ByteRangeReader,
};

verus! {

/// The most blocks one chain is followed through. A longer chain can only come back
/// on itself, and is reported malformed.
pub open spec fn chain_fuel() -> nat {
    u64::MAX as nat
}

/// `acc` followed by what `rest` gives, or the error of `rest`.
pub open spec fn prepend<T>(acc: Seq<T>, rest: Result<Seq<T>, MdfError>) -> Result<Seq<T>, MdfError> {
    match rest {
        Ok(r) => Ok(acc + r),
        Err(e) => Err(e),
    }
}

/// Prepending twice is prepending the two sequences joined.
pub proof fn lemma_prepend_twice<T>(a: Seq<T>, b: Seq<T>, rest: Result<Seq<T>, MdfError>)
    ensures
        prepend(a, prepend(b, rest)) == prepend(a + b, rest),
{
    if let Ok(r) = rest {
        assert(a + (b + r) =~= (a + b) + r);
    }
}

/// The channel a CN block `b` describes, given the texts of its name and unit.
pub open spec fn spec_channel(b: Seq<u8>, name: Option<Seq<char>>, unit: Option<Seq<char>>) -> IndexedChannelView {
    IndexedChannelView {
        name,
        unit,
        data_type: DataType::spec_from_u8(b[90]),
        byte_offset: u32_at(b, 92),
        bit_offset: b[91],
        bit_count: u32_at(b, 96),
        channel_type: b[88],
        flags: u32_at(b, 100),
        pos_invalidation_bit: u32_at(b, 104),
        vlsd_data_address: if b[88] == 1 && u64_at(b, 64) != 0 {
            Some(u64_at(b, 64))
        } else {
            None
        },
    }
}

/// The channels of the CN chain that starts at `addr` (0 ends a chain), following at
/// most `fuel` blocks. Each CN block is 160 bytes: its next link at 24, its name at 40,
/// its unit at 72.
pub open spec fn spec_channel_chain(c: Seq<u8>, addr: u64, fuel: nat) -> Result<Seq<IndexedChannelView>, MdfError>
    decreases fuel,
{
    if addr == 0 {
        Ok(Seq::empty())
    } else if fuel == 0 {
        Err(MdfError::MalformedIndex)
    } else {
        match spec_read(c, addr as int, 160) {
            None => Err(MdfError::UnexpectedEof),
            Some(b) => if !id_is(b, 0x43, 0x4E) {
                Err(MdfError::BlockIdMismatch)
            } else {
                match spec_text(c, u64_at(b, 40)) {
                    Err(e) => Err(e),
                    Ok(name) => match spec_text(c, u64_at(b, 72)) {
                        Err(e) => Err(e),
                        Ok(unit) => prepend(
                            seq![spec_channel(b, name, unit)],
                            spec_channel_chain(c, u64_at(b, 24), (fuel - 1) as nat),
                        ),
                    },
                }
            },
        }
    }
}

/// The data block that a DL entry at `addr` leads to, passing through HL blocks (whose
/// first link, at 24, leads on), following at most `fuel` blocks.
pub open spec fn spec_fragment(c: Seq<u8>, addr: u64, fuel: nat) -> Result<DataBlockInfo, MdfError>
    decreases fuel,
{
    if fuel == 0 {
        Err(MdfError::MalformedIndex)
    } else {
        match spec_read(c, addr as int, 24) {
            None => Err(MdfError::UnexpectedEof),
            Some(h) => if !id_is(h, 0x48, 0x4C) {
                Ok(DataBlockInfo { file_offset: addr, size: u64_at(h, 8), is_compressed: id_is(h, 0x44, 0x5A) })
            } else {
                match spec_read(c, addr as int, u64_at(h, 8) as int) {
                    None => Err(MdfError::UnexpectedEof),
                    Some(hl) => if hl.len() < 32 {
                        Err(MdfError::UnexpectedEof)
                    } else {
                        spec_fragment(c, u64_at(hl, 24), (fuel - 1) as nat)
                    },
                }
            },
        }
    }
}

/// The data blocks of the entries `k..n` of the DL block `dl` (entry `k` is the link at
/// `24 + 8k`; entries that are 0 are skipped).
pub open spec fn spec_dl_fragments(c: Seq<u8>, dl: Seq<u8>, k: int, n: int) -> Result<Seq<DataBlockInfo>, MdfError>
    decreases n - k,
{
    if k >= n {
        Ok(Seq::empty())
    } else if u64_at(dl, 24 + 8 * k) == 0 {
        spec_dl_fragments(c, dl, k + 1, n)
    } else {
        match spec_fragment(c, u64_at(dl, 24 + 8 * k), chain_fuel()) {
            Err(e) => Err(e),
            Ok(d) => prepend(seq![d], spec_dl_fragments(c, dl, k + 1, n)),
        }
    }
}

/// The data blocks of the chain that starts at `addr`: a DT or DV block is one plain
/// block and a DZ block one compressed block, either of which ends the chain; a DL block
/// lists blocks in its links `1..link_count` and leads on through link 0; an HL block
/// leads on through link 0; any other block ends the chain. At most `fuel` blocks.
pub open spec fn spec_data_blocks(c: Seq<u8>, addr: u64, fuel: nat) -> Result<Seq<DataBlockInfo>, MdfError>
    decreases fuel,
{
    if addr == 0 {
        Ok(Seq::empty())
    } else if fuel == 0 {
        Err(MdfError::MalformedIndex)
    } else {
        match spec_read(c, addr as int, 24) {
            None => Err(MdfError::UnexpectedEof),
            Some(h) => {
                let len = u64_at(h, 8);
                if id_is(h, 0x44, 0x54) || id_is(h, 0x44, 0x56) {
                    Ok(seq![DataBlockInfo { file_offset: addr, size: len, is_compressed: false }])
                } else if id_is(h, 0x44, 0x5A) {
                    Ok(seq![DataBlockInfo { file_offset: addr, size: len, is_compressed: true }])
                } else if id_is(h, 0x44, 0x4C) {
                    match spec_read(c, addr as int, len as int) {
                        None => Err(MdfError::UnexpectedEof),
                        Some(dl) => {
                            let n = u64_at(h, 16);
                            if n < 1 || 24 + 8 * n > dl.len() {
                                Err(MdfError::UnexpectedEof)
                            } else {
                                match spec_dl_fragments(c, dl, 1, n as int) {
                                    Err(e) => Err(e),
                                    Ok(fs) => prepend(fs, spec_data_blocks(c, u64_at(dl, 24), (fuel - 1) as nat)),
                                }
                            }
                        },
                    }
                } else if id_is(h, 0x48, 0x4C) {
                    match spec_read(c, addr as int, len as int) {
                        None => Err(MdfError::UnexpectedEof),
                        Some(hl) => if hl.len() < 32 {
                            Err(MdfError::UnexpectedEof)
                        } else {
                            spec_data_blocks(c, u64_at(hl, 24), (fuel - 1) as nat)
                        },
                    }
                } else {
                    Ok(Seq::empty())
                }
            },
        }
    }
}

/// The channel group a CG block `b` describes: record bytes at 96, invalidation bytes
/// at 100, record count at 80.
pub open spec fn spec_group(
    b: Seq<u8>,
    record_id_size: u8,
    name: Option<Seq<char>>,
    comment: Option<Seq<char>>,
    channels: Seq<IndexedChannelView>,
    data_blocks: Seq<DataBlockInfo>,
) -> IndexedChannelGroupView {
    IndexedChannelGroupView {
        name,
        comment,
        record_id_size,
        record_size: u32_at(b, 96),
        invalidation_bytes: u32_at(b, 100),
        record_count: u64_at(b, 80),
        channels,
        data_blocks,
    }
}

/// The channel groups of the CG chain that starts at `addr`, in a data group whose
/// records start at `data` and have `rec_id`-byte record IDs. Each CG block is 104
/// bytes: next link at 24, first channel at 32, name at 40, comment at 64.
pub open spec fn spec_group_chain(c: Seq<u8>, addr: u64, data: u64, rec_id: u8, fuel: nat) -> Result<Seq<IndexedChannelGroupView>, MdfError>
    decreases fuel,
{
    if addr == 0 {
        Ok(Seq::empty())
    } else if fuel == 0 {
        Err(MdfError::MalformedIndex)
    } else {
        match spec_read(c, addr as int, 104) {
            None => Err(MdfError::UnexpectedEof),
            Some(b) => if !id_is(b, 0x43, 0x47) {
                Err(MdfError::BlockIdMismatch)
            } else {
                match spec_text(c, u64_at(b, 40)) {
                    Err(e) => Err(e),
                    Ok(name) => match spec_text(c, u64_at(b, 64)) {
                        Err(e) => Err(e),
                        Ok(comment) => match spec_channel_chain(c, u64_at(b, 32), chain_fuel()) {
                            Err(e) => Err(e),
                            Ok(chs) => match spec_data_blocks(c, data, chain_fuel()) {
                                Err(e) => Err(e),
                                Ok(blocks) => prepend(
                                    seq![spec_group(b, rec_id, name, comment, chs, blocks)],
                                    spec_group_chain(c, u64_at(b, 24), data, rec_id, (fuel - 1) as nat),
                                ),
                            },
                        },
                    },
                }
            },
        }
    }
}

/// The channel groups of all data groups of the DG chain that starts at `addr`. Each DG
/// block is 64 bytes: next link at 24, first channel group at 32, data at 40, record ID
/// size at 56.
pub open spec fn spec_dg_chain(c: Seq<u8>, addr: u64, fuel: nat) -> Result<Seq<IndexedChannelGroupView>, MdfError>
    decreases fuel,
{
    if addr == 0 {
        Ok(Seq::empty())
    } else if fuel == 0 {
        Err(MdfError::MalformedIndex)
    } else {
        match spec_read(c, addr as int, 64) {
            None => Err(MdfError::UnexpectedEof),
            Some(b) => if !id_is(b, 0x44, 0x47) {
                Err(MdfError::BlockIdMismatch)
            } else {
                match spec_group_chain(c, u64_at(b, 32), u64_at(b, 40), b[56], chain_fuel()) {
                    Err(e) => Err(e),
                    Ok(gs) => prepend(gs, spec_dg_chain(c, u64_at(b, 24), (fuel - 1) as nat)),
                }
            },
        }
    }
}

/// The index of the file with bytes `c`: it starts with a 64-byte identification block
/// whose file identifier starts with `MDF`, then the 104-byte HD block at 64, whose first
/// link (at 24) starts the data group chain.
pub open spec fn spec_index(c: Seq<u8>, file_size: u64) -> Result<MdfIndexView, MdfError> {
    match spec_read(c, 0, 64) {
        None => Err(MdfError::UnexpectedEof),
        Some(id) => if !(id[0] == 0x4D && id[1] == 0x44 && id[2] == 0x46) {
            Err(MdfError::BlockIdMismatch)
        } else {
            match spec_read(c, 64, 104) {
                None => Err(MdfError::UnexpectedEof),
                Some(hd) => if !id_is(hd, 0x48, 0x44) {
                    Err(MdfError::BlockIdMismatch)
                } else {
                    match spec_dg_chain(c, u64_at(hd, 24), chain_fuel()) {
                        Err(e) => Err(e),
                        Ok(gs) => Ok(MdfIndexView { file_size, channel_groups: gs }),
                    }
                },
            }
        },
    }
}

/// The views of channels.
pub open spec fn channel_views(v: Seq<IndexedChannel>) -> Seq<IndexedChannelView> {
    v.map_values(|ch: IndexedChannel| ch@)
}

/// The views of channel groups.
pub open spec fn group_views(v: Seq<IndexedChannelGroup>) -> Seq<IndexedChannelGroupView> {
    v.map_values(|g: IndexedChannelGroup| g@)
}

/// Read the CN chain that starts at `first`.
fn read_channels<R: ByteRangeReader<Error = MdfError>>(reader: &mut R, first: u64) -> (r: Result<Vec<IndexedChannel>, MdfError>)
    ensures
        final(reader).contents() == old(reader).contents(),
        final(reader).reliable() == old(reader).reliable(),
        read_follows(
            r,
            spec_channel_chain(old(reader).contents(), first, chain_fuel()),
            |v: Vec<IndexedChannel>| channel_views(v@),
            old(reader).reliable(), exact_source(*old(reader))),
{
    let ghost c = reader.contents();
    let ghost rel = reader.reliable();
    let mut out: Vec<IndexedChannel> = Vec::new();
    let mut addr = first;
    let mut steps: u64 = 0;
    while addr != 0
        invariant
            reader.contents() == c,
            reader.reliable() == rel,
            c == old(reader).contents(),
            rel == old(reader).reliable(),
            spec_channel_chain(c, first, chain_fuel()) == prepend(
                channel_views(out@),
                spec_channel_chain(c, addr, (chain_fuel() - steps) as nat),
            ),
        decreases u64::MAX - steps,
    {
        if steps == u64::MAX {
            return Err(MdfError::MalformedIndex);
        }
        let b = read_exact(reader, addr, 160)?;
        if !has_id(b.as_slice(), 0x43, 0x4E) {
            return Err(MdfError::BlockIdMismatch);
        }
        let name = read_text_block(reader, read_u64_at(b.as_slice(), 40))?;
        let unit = read_text_block(reader, read_u64_at(b.as_slice(), 72))?;
        let channel_type = b[88];
        let data = read_u64_at(b.as_slice(), 64);
        let ch = IndexedChannel {
            name,
            unit,
            data_type: DataType::from_u8(b[90]),
            byte_offset: read_u32_at(b.as_slice(), 92),
            bit_offset: b[91],
            bit_count: read_u32_at(b.as_slice(), 96),
            channel_type,
            flags: read_u32_at(b.as_slice(), 100),
            pos_invalidation_bit: read_u32_at(b.as_slice(), 104),
            vlsd_data_address: if channel_type == 1 && data != 0 {
                Some(data)
            } else {
                None
            },
        };
        let next = read_u64_at(b.as_slice(), 24);
        proof {
            let f = (chain_fuel() - steps) as nat;
            assert(ch@ == spec_channel(b@, ch@.name, ch@.unit));
            assert(spec_channel_chain(c, addr, f) == prepend(
                seq![ch@],
                spec_channel_chain(c, next, (f - 1) as nat),
            ));
            lemma_prepend_twice(channel_views(out@), seq![ch@], spec_channel_chain(c, next, (f - 1) as nat));
            assert(channel_views(out@.push(ch)) =~= channel_views(out@) + seq![ch@]);
        }
        out.push(ch);
        addr = next;
        steps = steps + 1;
    }
    assert(channel_views(out@) + Seq::<IndexedChannelView>::empty() =~= channel_views(out@));
    Ok(out)
}

/// Follow a DL entry at `addr` through HL blocks to the data block it leads to.
fn read_fragment<R: ByteRangeReader<Error = MdfError>>(reader: &mut R, addr: u64) -> (r: Result<DataBlockInfo, MdfError>)
    ensures
        final(reader).contents() == old(reader).contents(),
        final(reader).reliable() == old(reader).reliable(),
        read_follows(r, spec_fragment(old(reader).contents(), addr, chain_fuel()), |d: DataBlockInfo| d, old(reader).reliable(), exact_source(*old(reader))),
{
    let ghost c = reader.contents();
    let ghost rel = reader.reliable();
    let mut pos = addr;
    let mut steps: u64 = 0;
    loop
        invariant
            reader.contents() == c,
            reader.reliable() == rel,
            c == old(reader).contents(),
            rel == old(reader).reliable(),
            spec_fragment(c, addr, chain_fuel()) == spec_fragment(c, pos, (chain_fuel() - steps) as nat),
        decreases u64::MAX - steps,
    {
        if steps == u64::MAX {
            return Err(MdfError::MalformedIndex);
        }
        let h = read_exact(reader, pos, 24)?;
        let len = read_u64_at(h.as_slice(), 8);
        if !has_id(h.as_slice(), 0x48, 0x4C) {
            return Ok(DataBlockInfo { file_offset: pos, size: len, is_compressed: has_id(h.as_slice(), 0x44, 0x5A) });
        }
        let hl = read_exact(reader, pos, len)?;
        if hl.len() < 32 {
            return Err(MdfError::UnexpectedEof);
        }
        pos = read_u64_at(hl.as_slice(), 24);
        steps = steps + 1;
    }
}

/// The data blocks of the entries `1..n` of the DL block `dl`.
pub(crate) fn read_dl_fragments<R: ByteRangeReader<Error = MdfError>>(reader: &mut R, dl: &Vec<u8>, n: u64) -> (r: Result<Vec<DataBlockInfo>, MdfError>)
    requires
        1 <= n,
        24 + 8 * n <= dl@.len(),
    ensures
        final(reader).contents() == old(reader).contents(),
        final(reader).reliable() == old(reader).reliable(),
        read_follows(r, spec_dl_fragments(old(reader).contents(), dl@, 1, n as int), |v: Vec<DataBlockInfo>| v@, old(reader).reliable(), exact_source(*old(reader))),
{
    let ghost c = reader.contents();
    let ghost rel = reader.reliable();
    let mut out: Vec<DataBlockInfo> = Vec::new();
    let dlen = dl.len();
    let mut k: u64 = 1;
    while k < n
        invariant
            dlen == dl@.len(),
            reader.contents() == c,
            reader.reliable() == rel,
            c == old(reader).contents(),
            rel == old(reader).reliable(),
            1 <= k <= n,
            24 + 8 * n <= dl@.len(),
            spec_dl_fragments(c, dl@, 1, n as int) == prepend(out@, spec_dl_fragments(c, dl@, k as int, n as int)),
        decreases n - k,
    {
        let pos: usize = 24 + 8 * (k as usize);
        let f = read_u64_at(dl.as_slice(), pos);
        if f != 0 {
            let d = read_fragment(reader, f)?;
            proof {
                lemma_prepend_twice(out@, seq![d], spec_dl_fragments(c, dl@, k + 1, n as int));
                assert(out@.push(d) =~= out@ + seq![d]);
            }
            out.push(d);
        }
        k = k + 1;
    }
    assert(out@ + Seq::<DataBlockInfo>::empty() =~= out@);
    Ok(out)
}

/// Follow the data block chain that starts at `data_addr`.
fn extract_data_blocks_streaming<R: ByteRangeReader<Error = MdfError>>(reader: &mut R, data_addr: u64) -> (r: Result<Vec<DataBlockInfo>, MdfError>)
    ensures
        final(reader).contents() == old(reader).contents(),
        final(reader).reliable() == old(reader).reliable(),
        read_follows(r, spec_data_blocks(old(reader).contents(), data_addr, chain_fuel()), |v: Vec<DataBlockInfo>| v@, old(reader).reliable(), exact_source(*old(reader))),
{
    let ghost c = reader.contents();
    let ghost rel = reader.reliable();
    let mut out: Vec<DataBlockInfo> = Vec::new();
    let mut addr = data_addr;
    let mut steps: u64 = 0;
    while addr != 0
        invariant
            reader.contents() == c,
            reader.reliable() == rel,
            c == old(reader).contents(),
            rel == old(reader).reliable(),
            spec_data_blocks(c, data_addr, chain_fuel()) == prepend(out@, spec_data_blocks(c, addr, (chain_fuel() - steps) as nat)),
        decreases u64::MAX - steps,
    {
        if steps == u64::MAX {
            return Err(MdfError::MalformedIndex);
        }
        let ghost f = (chain_fuel() - steps) as nat;
        let h = read_exact(reader, addr, 24)?;
        let len = read_u64_at(h.as_slice(), 8);
        if has_id(h.as_slice(), 0x44, 0x54) || has_id(h.as_slice(), 0x44, 0x56) {
            let d = DataBlockInfo { file_offset: addr, size: len, is_compressed: false };
            proof {
                assert(out@.push(d) + Seq::<DataBlockInfo>::empty() =~= out@ + seq![d]);
            }
            out.push(d);
            addr = 0;
        } else if has_id(h.as_slice(), 0x44, 0x5A) {
            let d = DataBlockInfo { file_offset: addr, size: len, is_compressed: true };
            proof {
                assert(out@.push(d) + Seq::<DataBlockInfo>::empty() =~= out@ + seq![d]);
            }
            out.push(d);
            addr = 0;
        } else if has_id(h.as_slice(), 0x44, 0x4C) {
            let dl = read_exact(reader, addr, len)?;
            let n = read_u64_at(h.as_slice(), 16);
            if n < 1 || (dl.len() as u64) < 24 || n > ((dl.len() as u64) - 24) / 8 {
                return Err(MdfError::UnexpectedEof);
            }
            assert(24 + 8 * n <= dl@.len());
            let frags = read_dl_fragments(reader, &dl, n)?;
            let next = read_u64_at(dl.as_slice(), 24);
            proof {
                lemma_prepend_twice(out@, frags@, spec_data_blocks(c, next, (f - 1) as nat));
            }
            let mut frags = frags;
            out.append(&mut frags);
            addr = next;
        } else if has_id(h.as_slice(), 0x48, 0x4C) {
            let hl = read_exact(reader, addr, len)?;
            if hl.len() < 32 {
                return Err(MdfError::UnexpectedEof);
            }
            addr = read_u64_at(hl.as_slice(), 24);
        } else {
            assert(out@ + Seq::<DataBlockInfo>::empty() =~= out@);
            addr = 0;
        }
        steps = steps + 1;
    }
    assert(out@ + Seq::<DataBlockInfo>::empty() =~= out@);
    Ok(out)
}

/// Read the CG chain that starts at `first`, in a data group whose records start at
/// `data` with `rec_id`-byte record IDs.
fn read_groups<R: ByteRangeReader<Error = MdfError>>(reader: &mut R, first: u64, data: u64, rec_id: u8) -> (r: Result<Vec<IndexedChannelGroup>, MdfError>)
    ensures
        final(reader).contents() == old(reader).contents(),
        final(reader).reliable() == old(reader).reliable(),
        read_follows(
            r,
            spec_group_chain(old(reader).contents(), first, data, rec_id, chain_fuel()),
            |v: Vec<IndexedChannelGroup>| group_views(v@),
            old(reader).reliable(), exact_source(*old(reader))),
{
    let ghost c = reader.contents();
    let ghost rel = reader.reliable();
    let mut out: Vec<IndexedChannelGroup> = Vec::new();
    let mut addr = first;
    let mut steps: u64 = 0;
    while addr != 0
        invariant
            reader.contents() == c,
            reader.reliable() == rel,
            c == old(reader).contents(),
            rel == old(reader).reliable(),
            spec_group_chain(c, first, data, rec_id, chain_fuel()) == prepend(
                group_views(out@),
                spec_group_chain(c, addr, data, rec_id, (chain_fuel() - steps) as nat),
            ),
        decreases u64::MAX - steps,
    {
        if steps == u64::MAX {
            return Err(MdfError::MalformedIndex);
        }
        let b = read_exact(reader, addr, 104)?;
        if !has_id(b.as_slice(), 0x43, 0x47) {
            return Err(MdfError::BlockIdMismatch);
        }
        let name = read_text_block(reader, read_u64_at(b.as_slice(), 40))?;
        let comment = read_text_block(reader, read_u64_at(b.as_slice(), 64))?;
        let channels = read_channels(reader, read_u64_at(b.as_slice(), 32))?;
        let data_blocks = extract_data_blocks_streaming(reader, data)?;
        let g = IndexedChannelGroup {
            name,
            comment,
            record_id_size: rec_id,
            record_size: read_u32_at(b.as_slice(), 96),
            invalidation_bytes: read_u32_at(b.as_slice(), 100),
            record_count: read_u64_at(b.as_slice(), 80),
            channels,
            data_blocks,
        };
        let next = read_u64_at(b.as_slice(), 24);
        proof {
            let f = (chain_fuel() - steps) as nat;
            assert(g@ == spec_group(b@, rec_id, g@.name, g@.comment, g@.channels, g@.data_blocks));
            assert(spec_group_chain(c, addr, data, rec_id, f) == prepend(
                seq![g@],
                spec_group_chain(c, next, data, rec_id, (f - 1) as nat),
            ));
            lemma_prepend_twice(group_views(out@), seq![g@], spec_group_chain(c, next, data, rec_id, (f - 1) as nat));
            assert(group_views(out@.push(g)) =~= group_views(out@) + seq![g@]);
        }
        out.push(g);
        addr = next;
        steps = steps + 1;
    }
    assert(group_views(out@) + Seq::<IndexedChannelGroupView>::empty() =~= group_views(out@));
    Ok(out)
}

/// Read the channel groups of every data group of the DG chain that starts at `first`.
fn read_data_groups<R: ByteRangeReader<Error = MdfError>>(reader: &mut R, first: u64) -> (r: Result<Vec<IndexedChannelGroup>, MdfError>)
    ensures
        final(reader).contents() == old(reader).contents(),
        final(reader).reliable() == old(reader).reliable(),
        read_follows(
            r,
            spec_dg_chain(old(reader).contents(), first, chain_fuel()),
            |v: Vec<IndexedChannelGroup>| group_views(v@),
            old(reader).reliable(), exact_source(*old(reader))),
{
    let ghost c = reader.contents();
    let ghost rel = reader.reliable();
    let mut out: Vec<IndexedChannelGroup> = Vec::new();
    let mut addr = first;
    let mut steps: u64 = 0;
    while addr != 0
        invariant
            reader.contents() == c,
            reader.reliable() == rel,
            c == old(reader).contents(),
            rel == old(reader).reliable(),
            spec_dg_chain(c, first, chain_fuel()) == prepend(
                group_views(out@),
                spec_dg_chain(c, addr, (chain_fuel() - steps) as nat),
            ),
        decreases u64::MAX - steps,
    {
        if steps == u64::MAX {
            return Err(MdfError::MalformedIndex);
        }
        let b = read_exact(reader, addr, 64)?;
        if !has_id(b.as_slice(), 0x44, 0x47) {
            return Err(MdfError::BlockIdMismatch);
        }
        let groups = read_groups(reader, read_u64_at(b.as_slice(), 32), read_u64_at(b.as_slice(), 40), b[56])?;
        let next = read_u64_at(b.as_slice(), 24);
        proof {
            let f = (chain_fuel() - steps) as nat;
            lemma_prepend_twice(group_views(out@), group_views(groups@), spec_dg_chain(c, next, (f - 1) as nat));
            assert(group_views(out@ + groups@) =~= group_views(out@) + group_views(groups@));
        }
        let mut groups = groups;
        out.append(&mut groups);
        addr = next;
        steps = steps + 1;
    }
    assert(group_views(out@) + Seq::<IndexedChannelGroupView>::empty() =~= group_views(out@));
    Ok(out)
}

impl MdfIndex {
    /// Create an index from any byte range reader: follow the data groups from the
    /// header block, and for each channel group record its name, comment, record layout,
    /// channels and data block locations. `file_size` is recorded as given.
    ///
    /// When the reader gives the file's bytes, the index is what [`spec_index`] says of
    /// them; an error of the file is reported as an error; a reader that fails only past
    /// the end of its bytes fails the index only where the file does.
    pub fn from_reader<R: ByteRangeReader<Error = MdfError>>(reader: &mut R, file_size: u64) -> (r: Result<MdfIndex, MdfError>)
        ensures
            final(reader).contents() == old(reader).contents(),
            final(reader).reliable() == old(reader).reliable(),
            read_follows(r, spec_index(old(reader).contents(), file_size), |m: MdfIndex| m@, old(reader).reliable(), exact_source(*old(reader))),
    {
        let id = read_exact(reader, 0, 64)?;
        if !(id[0] == 0x4D && id[1] == 0x44 && id[2] == 0x46) {
            return Err(MdfError::BlockIdMismatch);
        }
        let hd = read_exact(reader, 64, 104)?;
        if !has_id(hd.as_slice(), 0x48, 0x44) {
            return Err(MdfError::BlockIdMismatch);
        }
        let channel_groups = read_data_groups(reader, read_u64_at(hd.as_slice(), 24))?;
        let m = MdfIndex { file_size, channel_groups };
        assert(m@.channel_groups == group_views(channel_groups@));
        Ok(m)
    }
}

} // verus!

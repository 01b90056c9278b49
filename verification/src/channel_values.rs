//! Reading a channel's values through the index and a byte-range reader: values kept
//! in the records of the group's data blocks, and variable-length values kept in signal
//! data (SD) blocks.

use vstd::prelude::*;
use crate::bytes::copy_range;
use crate::error::MdfError;
use crate::index::{
    lemma_first_named, lemma_none_named, spec_first_named, DataBlockInfo, IndexedChannel,
    IndexedChannelGroup, MdfIndex,
};
use crate::reader::{
    exact_source, has_id, id_is, read_exact, read_follows, read_u32_at, read_u64_at, spec_read, u32_at, u64_at,
    ByteRangeReader,
};
use crate::scan::{chain_fuel, prepend, read_dl_fragments, spec_dl_fragments, lemma_prepend_twice};
use crate::values::{
    decode_record, decode_vlsd_value, opt_value, opt_values, spec_decode_record, spec_vlsd_value,
    DecodedValue, DecodedValueView,
};

verus! {

/// The values of the records in a block's data `d`, records being `rs` bytes.
pub open spec fn spec_block_values(d: Seq<u8>, rs: int, rec_id: int, data_bytes: int, ch: IndexedChannel) -> Seq<Option<DecodedValueView>> {
    Seq::new(
        (d.len() as int / rs) as nat,
        |k: int| spec_decode_record(d.subrange(k * rs, k * rs + rs), rec_id, data_bytes, ch),
    )
}

/// The values of a channel in the records of data blocks `i..` of group `g`: each
/// block's data follows its 24-byte header. A compressed block is not supported; a
/// block shorter than its header, or past 64-bit offsets, or records of no bytes, are
/// malformed.
pub open spec fn spec_regular_from(c: Seq<u8>, g: IndexedChannelGroup, ch: IndexedChannel, i: int) -> Result<Seq<Option<DecodedValueView>>, MdfError>
    decreases g.data_blocks@.len() - i,
{
    if i < 0 || i >= g.data_blocks@.len() {
        Ok(Seq::empty())
    } else {
        let b = g.data_blocks@[i];
        let rs = g.record_id_size + g.record_size + g.invalidation_bytes;
        if b.is_compressed {
            Err(MdfError::Unsupported)
        } else if b.size < 24 || b.file_offset + b.size > u64::MAX {
            Err(MdfError::MalformedIndex)
        } else {
            match spec_read(c, b.file_offset + 24, b.size - 24) {
                None => Err(MdfError::UnexpectedEof),
                Some(d) => if rs == 0 {
                    Err(MdfError::MalformedIndex)
                } else {
                    prepend(
                        spec_block_values(d, rs, g.record_id_size as int, g.record_size as int, ch),
                        spec_regular_from(c, g, ch, i + 1),
                    )
                },
            }
        }
    }
}

/// The SD block addresses of the chain at `addr`: an SD block is one and ends the
/// chain; a DL block lists blocks (through HL blocks) and leads on through link 0; an HL
/// block leads on through link 0; any other block is an error.
pub open spec fn spec_vlsd_addresses(c: Seq<u8>, addr: u64, fuel: nat) -> Result<Seq<u64>, MdfError>
    decreases fuel,
{
    if addr == 0 {
        Ok(Seq::empty())
    } else if fuel == 0 {
        Err(MdfError::MalformedIndex)
    } else {
        match spec_read(c, addr as int, 24) {
            None => Err(MdfError::UnexpectedEof),
            Some(h) => {
                let len = u64_at(h, 8);
                if id_is(h, 0x53, 0x44) {
                    Ok(seq![addr])
                } else if id_is(h, 0x44, 0x4C) {
                    match spec_read(c, addr as int, len as int) {
                        None => Err(MdfError::UnexpectedEof),
                        Some(dl) => {
                            let n = u64_at(h, 16);
                            if n < 1 || 24 + 8 * n > dl.len() {
                                Err(MdfError::UnexpectedEof)
                            } else {
                                match spec_dl_fragments(c, dl, 1, n as int) {
                                    Err(e) => Err(e),
                                    Ok(fs) => prepend(
                                        fs.map_values(|d: DataBlockInfo| d.file_offset),
                                        spec_vlsd_addresses(c, u64_at(dl, 24), (fuel - 1) as nat),
                                    ),
                                }
                            }
                        },
                    }
                } else if id_is(h, 0x48, 0x4C) {
                    match spec_read(c, addr as int, len as int) {
                        None => Err(MdfError::UnexpectedEof),
                        Some(hl) => if hl.len() < 32 {
                            Err(MdfError::UnexpectedEof)
                        } else {
                            spec_vlsd_addresses(c, u64_at(hl, 24), (fuel - 1) as nat)
                        },
                    }
                } else {
                    Err(MdfError::BlockIdMismatch)
                }
            },
        }
    }
}

/// The records of SD data `d` from `pos` on: each is a little-endian `u32` length and
/// that many bytes; a record that runs past the end ends the data.
pub open spec fn spec_sd_records(d: Seq<u8>, pos: int) -> Seq<Seq<u8>>
    decreases d.len() - pos,
{
    if pos < 0 || pos + 4 > d.len() {
        Seq::empty()
    } else {
        let end = pos + 4 + u32_at(d, pos);
        if end > d.len() {
            Seq::empty()
        } else {
            seq![d.subrange(pos + 4, end)] + spec_sd_records(d, end)
        }
    }
}

/// The SD data of the values `rs`: each value's length as four little-endian bytes,
/// then the value.
pub open spec fn spec_sd_data(rs: Seq<Seq<u8>>) -> Seq<u8>
    decreases rs.len(),
{
    if rs.len() == 0 {
        Seq::empty()
    } else {
        crate::bytes::le32(rs[0].len() as u32) + rs[0] + spec_sd_data(rs.drop_first())
    }
}

/// Whether bytes do not hold a whole SD record: fewer than four, or fewer than their
/// length prefix announces.
pub open spec fn sd_incomplete(t: Seq<u8>) -> bool {
    t.len() < 4 || 4 + u32_at(t, 0) > t.len()
}

/// Splitting SD data into its records gives back the values it was made of, each
/// without its length prefix, in order; bytes before the records are skipped, and
/// bytes after them that do not hold a whole record are left out.
pub proof fn lemma_sd_records_of_data(before: Seq<u8>, rs: Seq<Seq<u8>>, tail: Seq<u8>)
    requires
        forall|i: int| 0 <= i < rs.len() ==> (#[trigger] rs[i]).len() <= u32::MAX,
        sd_incomplete(tail),
    ensures
        spec_sd_records(before + spec_sd_data(rs) + tail, before.len() as int) == rs,
        spec_sd_records(spec_sd_data(rs) + tail, 0) == rs,
        spec_sd_records(spec_sd_data(rs), 0) == rs,
{
    lemma_sd_records_after(before, rs, tail);
    lemma_sd_records_after(Seq::<u8>::empty(), rs, tail);
    lemma_sd_records_after(Seq::<u8>::empty(), rs, Seq::<u8>::empty());
    assert(Seq::<u8>::empty() + spec_sd_data(rs) + tail =~= spec_sd_data(rs) + tail);
    assert(Seq::<u8>::empty() + spec_sd_data(rs) + Seq::<u8>::empty() =~= spec_sd_data(rs));
}

/// SD data after `before`, followed by an incomplete `tail`, splits into the values it
/// was made of.
proof fn lemma_sd_records_after(before: Seq<u8>, rs: Seq<Seq<u8>>, tail: Seq<u8>)
    requires
        forall|i: int| 0 <= i < rs.len() ==> (#[trigger] rs[i]).len() <= u32::MAX,
        sd_incomplete(tail),
    ensures
        spec_sd_records(before + spec_sd_data(rs) + tail, before.len() as int) == rs,
    decreases rs.len(),
{
    let d = before + spec_sd_data(rs) + tail;
    let pos = before.len() as int;
    if rs.len() == 0 {
        assert(d =~= before + tail);
        if tail.len() >= 4 {
            assert(d[pos] == tail[0] && d[pos + 1] == tail[1] && d[pos + 2] == tail[2] && d[pos + 3] == tail[3]);
            assert(u32_at(d, pos) == u32_at(tail, 0));
        }
    } else {
        let r0 = rs[0];
        let n = r0.len() as u32;
        let rest = rs.drop_first();
        let head = crate::bytes::le32(n);
        assert(d =~= before + head + r0 + spec_sd_data(rest) + tail);
        crate::bytes::lemma_le32_roundtrip(n);
        assert(d[pos] == head[0] && d[pos + 1] == head[1] && d[pos + 2] == head[2] && d[pos + 3] == head[3]);
        assert(u32_at(d, pos) == n);
        let end = pos + 4 + n;
        assert(d.subrange(pos + 4, end) =~= r0);
        assert forall|i: int| 0 <= i < rest.len() implies (#[trigger] rest[i]).len() <= u32::MAX by {
            assert(rest[i] == rs[i + 1]);
        }
        lemma_sd_records_after(before + head + r0, rest, tail);
        assert(before + head + r0 + spec_sd_data(rest) + tail =~= d);
        assert((before + head + r0).len() == end);
        assert(spec_sd_records(d, pos) =~= seq![r0] + rest);
    }
}

/// The values in the SD blocks `addrs[i..]`.
pub open spec fn spec_vlsd_from(c: Seq<u8>, addrs: Seq<u64>, i: int, ch: IndexedChannel) -> Result<Seq<Option<DecodedValueView>>, MdfError>
    decreases addrs.len() - i,
{
    if i < 0 || i >= addrs.len() {
        Ok(Seq::empty())
    } else {
        let a = addrs[i];
        match spec_read(c, a as int, 24) {
            None => Err(MdfError::UnexpectedEof),
            Some(h) => if !id_is(h, 0x53, 0x44) {
                Err(MdfError::BlockIdMismatch)
            } else {
                let len = u64_at(h, 8);
                if len <= 24 {
                    spec_vlsd_from(c, addrs, i + 1, ch)
                } else if a + len > u64::MAX {
                    Err(MdfError::MalformedIndex)
                } else {
                    match spec_read(c, a + 24, len - 24) {
                        None => Err(MdfError::UnexpectedEof),
                        Some(d) => prepend(
                            spec_sd_records(d, 0).map_values(|r: Seq<u8>| spec_vlsd_value(r, ch.data_type)),
                            spec_vlsd_from(c, addrs, i + 1, ch),
                        ),
                    }
                }
            },
        }
    }
}

/// The values of a VLSD channel: those of the SD blocks its data address leads to.
pub open spec fn spec_vlsd_values(c: Seq<u8>, ch: IndexedChannel) -> Result<Seq<Option<DecodedValueView>>, MdfError> {
    match ch.vlsd_data_address {
        None => Err(MdfError::NotFound),
        Some(a) => match spec_vlsd_addresses(c, a, chain_fuel()) {
            Err(e) => Err(e),
            Ok(addrs) => spec_vlsd_from(c, addrs, 0, ch),
        },
    }
}

/// The values of channel `ci` of group `gi`, read from the file with bytes `c`: an
/// unknown group or channel is not found; a VLSD channel's values come from its signal
/// data blocks, any other channel's from the records.
pub open spec fn spec_channel_values(idx: MdfIndex, gi: int, ci: int, c: Seq<u8>) -> Result<Seq<Option<DecodedValueView>>, MdfError> {
    if gi < 0 || gi >= idx.channel_groups@.len() {
        Err(MdfError::NotFound)
    } else if ci < 0 || ci >= idx.channel_groups@[gi].channels@.len() {
        Err(MdfError::NotFound)
    } else {
        let g = idx.channel_groups@[gi];
        let ch = g.channels@[ci];
        if ch.channel_type == 1 && ch.vlsd_data_address is Some {
            spec_vlsd_values(c, ch)
        } else {
            spec_regular_from(c, g, ch, 0)
        }
    }
}

/// The values of the records in a block's data `d`.
fn block_values(d: &Vec<u8>, rs: u64, ch: &IndexedChannel, rec_id: u8, data_bytes: u32, out: &mut Vec<Option<DecodedValue>>)
    requires
        rs > 0,
    ensures
        opt_values(final(out)@) == opt_values(old(out)@) + spec_block_values(d@, rs as int, rec_id as int, data_bytes as int, *ch),
{
    let len = d.len() as u64;
    let count = len / rs;
    let ghost base = opt_values(out@);
    let ghost want = spec_block_values(d@, rs as int, rec_id as int, data_bytes as int, *ch);
    let mut k: u64 = 0;
    while k < count
        invariant
            count == len / rs,
            len == d@.len(),
            len <= usize::MAX,
            rs > 0,
            k <= count,
            want == spec_block_values(d@, rs as int, rec_id as int, data_bytes as int, *ch),
            want.len() == count,
            opt_values(out@) == base + want.take(k as int),
        decreases count - k,
    {
        assert(k * rs + rs <= len) by (nonlinear_arith)
            requires
                k < count,
                count == len / rs,
                rs > 0,
        ;
        let start = k * rs;
        let rec = copy_range(d.as_slice(), start as usize, (start + rs) as usize);
        let v = decode_record(rec.as_slice(), rec_id as usize, data_bytes as usize, ch);
        let ghost before = out@;
        out.push(v);
        proof {
            assert(opt_values(out@) =~= opt_values(before).push(opt_value(v)));
            assert(want.take(k + 1) =~= want.take(k as int).push(want[k as int]));
        }
        k = k + 1;
    }
    assert(want.take(count as int) =~= want);
}

/// Read the values of a channel from the records of its group's data blocks.
fn read_regular_channel_values<R: ByteRangeReader<Error = MdfError>>(g: &IndexedChannelGroup, ch: &IndexedChannel, reader: &mut R) -> (r: Result<Vec<Option<DecodedValue>>, MdfError>)
    ensures
        final(reader).contents() == old(reader).contents(),
        final(reader).reliable() == old(reader).reliable(),
        read_follows(r, spec_regular_from(old(reader).contents(), *g, *ch, 0), |v: Vec<Option<DecodedValue>>| opt_values(v@), old(reader).reliable(), exact_source(*old(reader))),
{
    let ghost c = reader.contents();
    let ghost rel = reader.reliable();
    let rs: u64 = g.record_id_size as u64 + g.record_size as u64 + g.invalidation_bytes as u64;
    let mut out: Vec<Option<DecodedValue>> = Vec::new();
    let mut i: usize = 0;
    while i < g.data_blocks.len()
        invariant
            reader.contents() == c,
            reader.reliable() == rel,
            c == old(reader).contents(),
            rel == old(reader).reliable(),
            i <= g.data_blocks@.len(),
            rs == g.record_id_size + g.record_size + g.invalidation_bytes,
            spec_regular_from(c, *g, *ch, 0) == prepend(opt_values(out@), spec_regular_from(c, *g, *ch, i as int)),
        decreases g.data_blocks@.len() - i,
    {
        let b = g.data_blocks[i];
        if b.is_compressed {
            return Err(MdfError::Unsupported);
        }
        if b.size < 24 || b.file_offset > u64::MAX - b.size {
            return Err(MdfError::MalformedIndex);
        }
        let d = read_exact(reader, b.file_offset + 24, b.size - 24)?;
        if rs == 0 {
            return Err(MdfError::MalformedIndex);
        }
        let ghost before = opt_values(out@);
        block_values(&d, rs, ch, g.record_id_size, g.record_size, &mut out);
        proof {
            lemma_prepend_twice(
                before,
                spec_block_values(d@, rs as int, g.record_id_size as int, g.record_size as int, *ch),
                spec_regular_from(c, *g, *ch, i + 1),
            );
        }
        i = i + 1;
    }
    assert(opt_values(out@) + Seq::<Option<DecodedValueView>>::empty() =~= opt_values(out@));
    Ok(out)
}

/// Collect the SD block addresses of the chain at `start_addr`.
fn collect_vlsd_block_addresses<R: ByteRangeReader<Error = MdfError>>(start_addr: u64, reader: &mut R) -> (r: Result<Vec<u64>, MdfError>)
    ensures
        final(reader).contents() == old(reader).contents(),
        final(reader).reliable() == old(reader).reliable(),
        read_follows(r, spec_vlsd_addresses(old(reader).contents(), start_addr, chain_fuel()), |v: Vec<u64>| v@, old(reader).reliable(), exact_source(*old(reader))),
{
    let ghost c = reader.contents();
    let ghost rel = reader.reliable();
    let mut out: Vec<u64> = Vec::new();
    let mut addr = start_addr;
    let mut steps: u64 = 0;
    while addr != 0
        invariant
            reader.contents() == c,
            reader.reliable() == rel,
            c == old(reader).contents(),
            rel == old(reader).reliable(),
            spec_vlsd_addresses(c, start_addr, chain_fuel()) == prepend(out@, spec_vlsd_addresses(c, addr, (chain_fuel() - steps) as nat)),
        decreases u64::MAX - steps,
    {
        if steps == u64::MAX {
            return Err(MdfError::MalformedIndex);
        }
        let ghost f = (chain_fuel() - steps) as nat;
        let h = read_exact(reader, addr, 24)?;
        let len = read_u64_at(h.as_slice(), 8);
        if has_id(h.as_slice(), 0x53, 0x44) {
            proof {
                assert(out@.push(addr) + Seq::<u64>::empty() =~= out@ + seq![addr]);
            }
            out.push(addr);
            addr = 0;
        } else if has_id(h.as_slice(), 0x44, 0x4C) {
            let dl = read_exact(reader, addr, len)?;
            let n = read_u64_at(h.as_slice(), 16);
            if n < 1 || (dl.len() as u64) < 24 || n > ((dl.len() as u64) - 24) / 8 {
                return Err(MdfError::UnexpectedEof);
            }
            assert(24 + 8 * n <= dl@.len());
            let frags = read_dl_fragments(reader, &dl, n)?;
            let next = read_u64_at(dl.as_slice(), 24);
            let ghost fv = frags@.map_values(|d: DataBlockInfo| d.file_offset);
            let ghost before = out@;
            let mut j: usize = 0;
            while j < frags.len()
                invariant
                    j <= frags@.len(),
                    fv == frags@.map_values(|d: DataBlockInfo| d.file_offset),
                    out@ == before + fv.take(j as int),
                decreases frags@.len() - j,
            {
                out.push(frags[j].file_offset);
                j = j + 1;
                assert(out@ =~= before + fv.take(j as int));
            }
            assert(fv.take(frags@.len() as int) =~= fv);
            proof {
                lemma_prepend_twice(before, fv, spec_vlsd_addresses(c, next, (f - 1) as nat));
            }
            addr = next;
        } else if has_id(h.as_slice(), 0x48, 0x4C) {
            let hl = read_exact(reader, addr, len)?;
            if hl.len() < 32 {
                return Err(MdfError::UnexpectedEof);
            }
            addr = read_u64_at(hl.as_slice(), 24);
        } else {
            return Err(MdfError::BlockIdMismatch);
        }
        steps = steps + 1;
    }
    assert(out@ + Seq::<u64>::empty() =~= out@);
    Ok(out)
}

/// Appends the values of the records of SD data `d`.
fn sd_values(d: &Vec<u8>, ch: &IndexedChannel, out: &mut Vec<Option<DecodedValue>>)
    ensures
        opt_values(final(out)@) == opt_values(old(out)@) + spec_sd_records(d@, 0).map_values(
            |r: Seq<u8>| spec_vlsd_value(r, ch.data_type),
        ),
{
    let ghost base = opt_values(out@);
    let ghost f = |r: Seq<u8>| spec_vlsd_value(r, ch.data_type);
    let n = d.len();
    let mut pos: usize = 0;
    loop
        invariant
            n == d@.len(),
            pos <= n,
            base == opt_values(old(out)@),
            f == (|r: Seq<u8>| spec_vlsd_value(r, ch.data_type)),
            base + spec_sd_records(d@, 0).map_values(f) == opt_values(out@) + spec_sd_records(d@, pos as int).map_values(f),
        decreases n - pos,
    {
        if n - pos < 4 {
            assert(spec_sd_records(d@, pos as int) =~= Seq::<Seq<u8>>::empty());
            assert(opt_values(out@) + Seq::<Seq<u8>>::empty().map_values(f) =~= opt_values(out@));
            return;
        }
        let len = read_u32_at(d.as_slice(), pos) as usize;
        if len > n - pos - 4 {
            assert(spec_sd_records(d@, pos as int) =~= Seq::<Seq<u8>>::empty());
            assert(opt_values(out@) + Seq::<Seq<u8>>::empty().map_values(f) =~= opt_values(out@));
            return;
        }
        let end = pos + 4 + len;
        let rec = copy_range(d.as_slice(), pos + 4, end);
        let v = decode_vlsd_value(rec.as_slice(), ch.data_type);
        let ghost before = out@;
        out.push(v);
        proof {
            let rest = spec_sd_records(d@, end as int);
            assert(spec_sd_records(d@, pos as int) == seq![rec@] + rest);
            assert((seq![rec@] + rest).map_values(f) =~= seq![f(rec@)] + rest.map_values(f));
            assert(opt_values(out@) =~= opt_values(before) + seq![opt_value(v)]);
            assert(opt_values(before) + (seq![f(rec@)] + rest.map_values(f)) =~= opt_values(out@) + rest.map_values(f));
        }
        pos = end;
    }
}

/// Read the values of a VLSD channel from its signal data blocks.
fn read_vlsd_channel_values<R: ByteRangeReader<Error = MdfError>>(ch: &IndexedChannel, reader: &mut R) -> (r: Result<Vec<Option<DecodedValue>>, MdfError>)
    ensures
        final(reader).contents() == old(reader).contents(),
        final(reader).reliable() == old(reader).reliable(),
        read_follows(r, spec_vlsd_values(old(reader).contents(), *ch), |v: Vec<Option<DecodedValue>>| opt_values(v@), old(reader).reliable(), exact_source(*old(reader))),
{
    let ghost c = reader.contents();
    let ghost rel = reader.reliable();
    let vlsd_addr = match ch.vlsd_data_address {
        Some(a) => a,
        None => {
            return Err(MdfError::NotFound);
        },
    };
    let addrs = collect_vlsd_block_addresses(vlsd_addr, reader)?;
    let mut out: Vec<Option<DecodedValue>> = Vec::new();
    let mut i: usize = 0;
    while i < addrs.len()
        invariant
            reader.contents() == c,
            reader.reliable() == rel,
            c == old(reader).contents(),
            rel == old(reader).reliable(),
            i <= addrs@.len(),
            spec_vlsd_values(c, *ch) == spec_vlsd_from(c, addrs@, 0, *ch),
            spec_vlsd_from(c, addrs@, 0, *ch) == prepend(opt_values(out@), spec_vlsd_from(c, addrs@, i as int, *ch)),
        decreases addrs@.len() - i,
    {
        let a = addrs[i];
        let h = read_exact(reader, a, 24)?;
        if !has_id(h.as_slice(), 0x53, 0x44) {
            return Err(MdfError::BlockIdMismatch);
        }
        let len = read_u64_at(h.as_slice(), 8);
        if len > 24 {
            if a > u64::MAX - len {
                return Err(MdfError::MalformedIndex);
            }
            let d = read_exact(reader, a + 24, len - 24)?;
            let ghost before = opt_values(out@);
            sd_values(&d, ch, &mut out);
            proof {
                lemma_prepend_twice(
                    before,
                    spec_sd_records(d@, 0).map_values(|r: Seq<u8>| spec_vlsd_value(r, ch.data_type)),
                    spec_vlsd_from(c, addrs@, i + 1, *ch),
                );
            }
        }
        i = i + 1;
    }
    assert(opt_values(out@) + Seq::<Option<DecodedValueView>>::empty() =~= opt_values(out@));
    Ok(out)
}

impl MdfIndex {
    /// Read the values of channel `channel_index` of group `group_index` through a
    /// byte-range reader over the file. An unknown group or channel is not found. Each
    /// value is `None` where the sample is invalid or cannot be decoded.
    pub fn read_channel_values<R: ByteRangeReader<Error = MdfError>>(
        &self,
        group_index: usize,
        channel_index: usize,
        reader: &mut R,
    ) -> (r: Result<Vec<Option<DecodedValue>>, MdfError>)
        ensures
            final(reader).contents() == old(reader).contents(),
            final(reader).reliable() == old(reader).reliable(),
            read_follows(
                r,
                spec_channel_values(*self, group_index as int, channel_index as int, old(reader).contents()),
                |v: Vec<Option<DecodedValue>>| opt_values(v@),
                old(reader).reliable(), exact_source(*old(reader))),
    {
        if group_index >= self.channel_groups.len() {
            return Err(MdfError::NotFound);
        }
        let group = &self.channel_groups[group_index];
        if channel_index >= group.channels.len() {
            return Err(MdfError::NotFound);
        }
        let channel = &group.channels[channel_index];
        if channel.channel_type == 1 && channel.vlsd_data_address.is_some() {
            return read_vlsd_channel_values(channel, reader);
        }
        read_regular_channel_values(group, channel, reader)
    }

    /// Read the values of the first channel with a given name (not found when no channel
    /// has it).
    pub fn read_channel_values_by_name<R: ByteRangeReader<Error = MdfError>>(
        &self,
        channel_name: &str,
        reader: &mut R,
    ) -> (r: Result<Vec<Option<DecodedValue>>, MdfError>)
        ensures
            final(reader).contents() == old(reader).contents(),
            final(reader).reliable() == old(reader).reliable(),
            match spec_first_named(self.channel_groups@, channel_name@) {
                None => r == Err::<Vec<Option<DecodedValue>>, MdfError>(MdfError::NotFound),
                Some((g, c)) => read_follows(
                    r,
                    spec_channel_values(*self, g, c, old(reader).contents()),
                    |v: Vec<Option<DecodedValue>>| opt_values(v@),
                    old(reader).reliable(), exact_source(*old(reader))),
            },
    {
        match self.find_channel_by_name_global(channel_name) {
            Some((g, c)) => {
                proof {
                    lemma_first_named(self.channel_groups@, channel_name@, g as int, c as int);
                }
                self.read_channel_values(g, c, reader)
            },
            None => {
                proof {
                    lemma_none_named(self.channel_groups@, channel_name@);
                }
                Err(MdfError::NotFound)
            },
        }
    }

}

} // verus!

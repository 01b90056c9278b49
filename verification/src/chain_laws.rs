//! Laws of the data blocks an index lists: the blocks a chain holds, and where a
//! channel's bytes lie in them.

use vstd::prelude::*;
use crate::error::MdfError;
use crate::index::{
    fits_u64, spec_channel_bytes, spec_channel_offset, spec_channel_ranges, spec_ranges_from, spec_record_total,
    DataBlockInfo, IndexedChannel, IndexedChannelGroup,
};
use crate::reader::{id_is, spec_read, u64_at};
use crate::scan::{chain_fuel, spec_data_blocks, spec_dl_fragments, spec_fragment};

verus! {

/// The links `k..n` of a DL block `dl`: link `j` is at byte `24 + 8j`.
pub open spec fn dl_links(dl: Seq<u8>, k: int, n: int) -> Seq<u64> {
    Seq::new((n - k) as nat, |i: int| u64_at(dl, 24 + 8 * (k + i)))
}

/// Whether a data block other than an HL block starts at `a` in `c`: its header can
/// be read and it is not an HL block.
pub open spec fn plain_block_at(c: Seq<u8>, a: u64) -> bool {
    spec_read(c, a as int, 24) matches Some(h) && !id_is(h, 0x48, 0x4C)
}

/// The data block at `a`: its offset, the length in its header, and whether it is a DZ
/// block.
pub open spec fn block_info_at(c: Seq<u8>, a: u64) -> DataBlockInfo {
    let h = c.subrange(a as int, a + 24);
    DataBlockInfo { file_offset: a, size: u64_at(h, 8), is_compressed: id_is(h, 0x44, 0x5A) }
}

/// A DL block whose links all lead straight to data blocks lists exactly those blocks:
/// one for each nonzero link `1..n`, in link order.
pub proof fn lemma_dl_lists_every_link(c: Seq<u8>, dl: Seq<u8>, n: int)
    requires
        1 <= n,
        24 + 8 * n <= dl.len(),
        forall|k: int| 1 <= k < n && u64_at(dl, 24 + 8 * k) != 0 ==> plain_block_at(c, #[trigger] u64_at(dl, 24 + 8 * k)),
    ensures
        spec_dl_fragments(c, dl, 1, n) == Ok::<Seq<DataBlockInfo>, MdfError>(
            dl_links(dl, 1, n).filter(|a: u64| a != 0).map_values(|a: u64| block_info_at(c, a)),
        ),
        spec_dl_fragments(c, dl, 1, n) matches Ok(fs) ==> fs.len() == dl_links(dl, 1, n).filter(|a: u64| a != 0).len(),
{
    lemma_dl_links_from(c, dl, 1, n);
}

/// The links `k..n` of such a DL block list exactly the blocks of their nonzero links.
proof fn lemma_dl_links_from(c: Seq<u8>, dl: Seq<u8>, k: int, n: int)
    requires
        1 <= k <= n,
        forall|j: int| 1 <= j < n && u64_at(dl, 24 + 8 * j) != 0 ==> plain_block_at(c, #[trigger] u64_at(dl, 24 + 8 * j)),
    ensures
        spec_dl_fragments(c, dl, k, n) == Ok::<Seq<DataBlockInfo>, MdfError>(
            dl_links(dl, k, n).filter(|a: u64| a != 0).map_values(|a: u64| block_info_at(c, a)),
        ),
    decreases n - k,
{
    let p = |a: u64| a != 0;
    let f = |a: u64| block_info_at(c, a);
    reveal(Seq::filter);
    if k == n {
        assert(dl_links(dl, k, n) =~= Seq::<u64>::empty());
        assert(dl_links(dl, k, n).filter(p).map_values(f) =~= Seq::<DataBlockInfo>::empty());
    } else {
        lemma_dl_links_from(c, dl, k + 1, n);
        let a = u64_at(dl, 24 + 8 * k);
        let rest = dl_links(dl, k + 1, n);
        assert(dl_links(dl, k, n) =~= seq![a] + rest);
        Seq::filter_distributes_over_add(seq![a], rest, p);
        assert(seq![a].drop_last() =~= Seq::<u64>::empty());
        assert(Seq::<u64>::empty().filter(p) == Seq::<u64>::empty());
        if a == 0 {
            assert(seq![a].filter(p) =~= Seq::<u64>::empty());
            assert(dl_links(dl, k, n).filter(p) =~= rest.filter(p));
        } else {
            assert(seq![a].filter(p) =~= seq![a]);
            assert(plain_block_at(c, a));
            let h = c.subrange(a as int, a + 24);
            assert(spec_fragment(c, a, chain_fuel()) == Ok::<DataBlockInfo, MdfError>(block_info_at(c, a)));
            assert((seq![a] + rest.filter(p)).map_values(f) =~= seq![block_info_at(c, a)] + rest.filter(p).map_values(f));
        }
    }
}

/// A chain that starts with a DL block (header `h`, bytes `dl`) whose links lead
/// straight to data blocks has the blocks of its nonzero links `1..n` in link order,
/// `n` its link count, followed by those of the chain its link 0 leads on to; when link
/// 0 is 0, just its own.
pub proof fn lemma_dl_chain_lists_every_link(c: Seq<u8>, addr: u64, fuel: nat, h: Seq<u8>, dl: Seq<u8>)
    requires
        addr != 0,
        fuel > 0,
        spec_read(c, addr as int, 24) == Some(h),
        id_is(h, 0x44, 0x4C),
        spec_read(c, addr as int, u64_at(h, 8) as int) == Some(dl),
        1 <= u64_at(h, 16),
        24 + 8 * u64_at(h, 16) <= dl.len(),
        forall|k: int| 1 <= k < u64_at(h, 16) && u64_at(dl, 24 + 8 * k) != 0 ==> plain_block_at(c, #[trigger] u64_at(dl, 24 + 8 * k)),
    ensures
        spec_data_blocks(c, addr, fuel) == match spec_data_blocks(c, u64_at(dl, 24), (fuel - 1) as nat) {
            Ok(more) => Ok::<Seq<DataBlockInfo>, MdfError>(
                dl_links(dl, 1, u64_at(h, 16) as int).filter(|a: u64| a != 0).map_values(|a: u64| block_info_at(c, a)) + more,
            ),
            Err(e) => Err(e),
        },
        u64_at(dl, 24) == 0 ==> spec_data_blocks(c, addr, fuel) == Ok::<Seq<DataBlockInfo>, MdfError>(
            dl_links(dl, 1, u64_at(h, 16) as int).filter(|a: u64| a != 0).map_values(|a: u64| block_info_at(c, a)),
        ),
{
    let n = u64_at(h, 16) as int;
    lemma_dl_lists_every_link(c, dl, n);
    let fs = dl_links(dl, 1, n).filter(|a: u64| a != 0).map_values(|a: u64| block_info_at(c, a));
    assert(!id_is(h, 0x44, 0x54) && !id_is(h, 0x44, 0x56) && !id_is(h, 0x44, 0x5A));
    assert(spec_data_blocks(c, 0, (fuel - 1) as nat) == Ok::<Seq<DataBlockInfo>, MdfError>(Seq::empty()));
    assert(fs + Seq::<DataBlockInfo>::empty() =~= fs);
}

/// In a group whose records lie in one uncompressed data block at `F`, the bytes of a
/// channel for records `start..start + count` are one range: it starts at the channel's
/// first byte in record `start` (`F + 24 + start * record_size + channel_offset`) and
/// runs through the channel's last byte in the last of those records. (Sizes that do
/// not fit in 64 bits, and an empty range, are errors instead.)
pub proof fn lemma_ranges_in_one_block(g: IndexedChannelGroup, c: IndexedChannel, start: int, count: int)
    requires
        g.data_blocks@.len() == 1,
        !g.data_blocks@[0].is_compressed,
        g.data_blocks@[0].size >= 24,
        spec_record_total(g) > 0,
        0 <= start,
        1 <= count,
        start + count <= (g.data_blocks@[0].size - 24) / spec_record_total(g),
        (count - 1) * spec_record_total(g) + spec_channel_bytes(c) >= 1,
        fits_u64(g.data_blocks@[0].file_offset + 24 + start * spec_record_total(g) + spec_channel_offset(g, c)
            + (count - 1) * spec_record_total(g) + spec_channel_bytes(c) - 1),
    ensures
        spec_channel_ranges(g, c, start, count) == Ok::<Seq<(u64, u64)>, MdfError>(seq![(
            (g.data_blocks@[0].file_offset + 24 + start * spec_record_total(g) + spec_channel_offset(g, c)) as u64,
            ((count - 1) * spec_record_total(g) + spec_channel_bytes(c)) as u64,
        )]),
{
    let rs = spec_record_total(g);
    assert(0 <= start * rs) by (nonlinear_arith)
        requires
            0 <= start,
            rs > 0,
    ;
    assert(0 <= (count - 1) * rs) by (nonlinear_arith)
        requires
            1 <= count,
            rs > 0,
    ;
    assert(0 <= (g.data_blocks@[0].size - 24) / rs) by (nonlinear_arith)
        requires
            g.data_blocks@[0].size >= 24,
            rs > 0,
    ;
}

/// The number of records of `rs` bytes in the data blocks before block `j`.
pub open spec fn records_before(blocks: Seq<DataBlockInfo>, j: int, rs: int) -> int
    decreases j,
{
    if j <= 0 {
        0
    } else {
        records_before(blocks, j - 1, rs) + (blocks[j - 1].size - 24) / rs
    }
}

/// Blocks hold no fewer records the more of them there are.
proof fn lemma_records_before_grows(blocks: Seq<DataBlockInfo>, i: int, j: int, rs: int)
    requires
        0 <= i <= j <= blocks.len(),
        rs > 0,
        forall|k: int| 0 <= k < j ==> (#[trigger] blocks[k]).size >= 24,
    ensures
        0 <= records_before(blocks, i, rs) <= records_before(blocks, j, rs),
    decreases j,
{
    if j > 0 {
        assert(0 <= (blocks[j - 1].size - 24) / rs) by (nonlinear_arith)
            requires
                blocks[j - 1].size >= 24,
                rs > 0,
        ;
        if i < j {
            lemma_records_before_grows(blocks, i, j - 1, rs);
        } else {
            lemma_records_before_grows(blocks, i - 1, j - 1, rs);
        }
    }
}

/// When the wanted records `start..start + count` of `rs` bytes all lie in data block
/// `j`, the channel's bytes for them are one range: it starts at the channel's first
/// byte (`off` into a record) in record `start`, counted from the first record of block
/// `j`, and spans `count - 1` records and then the channel's `cb` bytes. (Sizes that do
/// not fit in 64 bits, and an empty range, are errors instead.)
pub proof fn lemma_ranges_in_block(blocks: Seq<DataBlockInfo>, j: int, rs: int, off: int, cb: int, start: int, count: int)
    requires
        0 <= j < blocks.len(),
        rs > 0,
        0 <= off,
        forall|k: int| 0 <= k <= j ==> !(#[trigger] blocks[k]).is_compressed && blocks[k].size >= 24,
        records_before(blocks, j, rs) <= start,
        1 <= count,
        start + count <= records_before(blocks, j + 1, rs),
        fits_u64(records_before(blocks, j + 1, rs)),
        (count - 1) * rs + cb >= 1,
        fits_u64(blocks[j].file_offset + 24 + (start - records_before(blocks, j, rs)) * rs + off + (count - 1) * rs + cb - 1),
    ensures
        spec_ranges_from(blocks, 0, rs, off, cb, start, start + count, 0) == Ok::<Seq<(u64, u64)>, MdfError>(seq![(
            (blocks[j].file_offset + 24 + (start - records_before(blocks, j, rs)) * rs + off) as u64,
            ((count - 1) * rs + cb) as u64,
        )]),
{
    lemma_ranges_from_block(blocks, 0, j, rs, off, cb, start, count);
}

/// The walk from block `i` (up to `j`) gives that one range.
proof fn lemma_ranges_from_block(blocks: Seq<DataBlockInfo>, i: int, j: int, rs: int, off: int, cb: int, start: int, count: int)
    requires
        0 <= i <= j < blocks.len(),
        rs > 0,
        0 <= off,
        forall|k: int| 0 <= k <= j ==> !(#[trigger] blocks[k]).is_compressed && blocks[k].size >= 24,
        records_before(blocks, j, rs) <= start,
        1 <= count,
        start + count <= records_before(blocks, j + 1, rs),
        fits_u64(records_before(blocks, j + 1, rs)),
        (count - 1) * rs + cb >= 1,
        fits_u64(blocks[j].file_offset + 24 + (start - records_before(blocks, j, rs)) * rs + off + (count - 1) * rs + cb - 1),
    ensures
        spec_ranges_from(blocks, i, rs, off, cb, start, start + count, records_before(blocks, i, rs)) == Ok::<Seq<(u64, u64)>, MdfError>(seq![(
            (blocks[j].file_offset + 24 + (start - records_before(blocks, j, rs)) * rs + off) as u64,
            ((count - 1) * rs + cb) as u64,
        )]),
    decreases j - i,
{
    let p = records_before(blocks, i, rs);
    let b = blocks[i];
    let n = (b.size - 24) / rs;
    assert(b.size >= 24 && !b.is_compressed);
    assert(0 <= (b.size - 24) / rs) by (nonlinear_arith)
        requires
            b.size >= 24,
            rs > 0,
    ;
    assert(records_before(blocks, i + 1, rs) == p + n);
    lemma_records_before_grows(blocks, i + 1, j + 1, rs);
    lemma_records_before_grows(blocks, i, j, rs);
    if i < j {
        lemma_records_before_grows(blocks, i + 1, j, rs);
        lemma_ranges_from_block(blocks, i + 1, j, rs, off, cb, start, count);
        let rest = spec_ranges_from(blocks, i + 1, rs, off, cb, start, start + count, p + n);
        assert(rest is Ok);
        assert(Seq::<(u64, u64)>::empty() + rest->Ok_0 =~= rest->Ok_0);
    } else {
        assert(0 <= (start - p) * rs) by (nonlinear_arith)
            requires
                start - p >= 0,
                rs > 0,
        ;
        assert(0 <= (count - 1) * rs) by (nonlinear_arith)
            requires
                count >= 1,
                rs > 0,
        ;
    }
}

} // verus!

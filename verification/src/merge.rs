//! Merging the channel groups of two MDF files: groups that share a layout are joined,
//! channel by channel, the values of the second after those of the first; a group
//! whose layout the first file lacks is kept as a group of its own.

use vstd::prelude::*;
use crate::blocks::DataType;
use crate::channel_values::spec_channel_values;
use crate::error::MdfError;
use crate::index::{IndexedChannel, IndexedChannelView, MdfIndex};
use crate::reader::{exact_source, opt_view, read_follows, ByteRangeReader};
use crate::scan::{lemma_prepend_twice, prepend};
use crate::text::str_equal;
use crate::values::{opt_values, DecodedValue, DecodedValueView};

verus! {

/// The layout of one channel: what a record holds of it and where.
#[derive(Debug)]
pub struct ChannelMeta {
    pub name: Option<String>,
    pub data_type: DataType,
    pub bit_offset: u8,
    pub byte_offset: u32,
    pub bit_count: u32,
    pub channel_type: u8,
}

/// What a channel layout holds, its name as characters.
pub struct ChannelMetaView {
    pub name: Option<Seq<char>>,
    pub data_type: DataType,
    pub bit_offset: u8,
    pub byte_offset: u32,
    pub bit_count: u32,
    pub channel_type: u8,
}

impl View for ChannelMeta {
    type V = ChannelMetaView;

    open spec fn view(&self) -> ChannelMetaView {
        ChannelMetaView {
            name: opt_view(self.name),
            data_type: self.data_type,
            bit_offset: self.bit_offset,
            byte_offset: self.byte_offset,
            bit_count: self.bit_count,
            channel_type: self.channel_type,
        }
    }
}

/// The layout of a channel group: its record ID size and its channels.
#[derive(Debug)]
pub struct GroupMeta {
    pub record_id_size: u8,
    pub channels: Vec<ChannelMeta>,
}

/// What a group layout holds.
pub struct GroupMetaView {
    pub record_id_size: u8,
    pub channels: Seq<ChannelMetaView>,
}

impl View for GroupMeta {
    type V = GroupMetaView;

    open spec fn view(&self) -> GroupMetaView {
        GroupMetaView {
            record_id_size: self.record_id_size,
            channels: self.channels@.map_values(|c: ChannelMeta| c@),
        }
    }
}

/// A channel group with its values: for each channel, its value in each record
/// (`None` where a value is invalid or cannot be decoded).
#[derive(Debug)]
pub struct MergedGroup {
    pub meta: GroupMeta,
    pub data: Vec<Vec<Option<DecodedValue>>>,
}

/// What a group with its values holds.
pub struct MergedGroupView {
    pub meta: GroupMetaView,
    pub data: Seq<Seq<Option<DecodedValueView>>>,
}

/// The values of each channel, as plain values.
pub open spec fn data_views(d: Seq<Vec<Option<DecodedValue>>>) -> Seq<Seq<Option<DecodedValueView>>> {
    d.map_values(|v: Vec<Option<DecodedValue>>| opt_values(v@))
}

impl View for MergedGroup {
    type V = MergedGroupView;

    open spec fn view(&self) -> MergedGroupView {
        MergedGroupView { meta: self.meta@, data: data_views(self.data@) }
    }
}

/// The views of groups.
pub open spec fn group_views(gs: Seq<MergedGroup>) -> Seq<MergedGroupView> {
    gs.map_values(|g: MergedGroup| g@)
}

/// Whether two optional names are equal.
fn names_equal(a: &Option<String>, b: &Option<String>) -> (r: bool)
    ensures
        r == (opt_view(*a) == opt_view(*b)),
{
    match (a, b) {
        (Some(x), Some(y)) => str_equal(x.as_str(), y.as_str()),
        (None, None) => true,
        _ => false,
    }
}

/// Whether two channel layouts are equal.
fn channel_meta_equal(a: &ChannelMeta, b: &ChannelMeta) -> (r: bool)
    ensures
        r == (a@ == b@),
{
    names_equal(&a.name, &b.name) && a.data_type == b.data_type && a.bit_offset == b.bit_offset
        && a.byte_offset == b.byte_offset && a.bit_count == b.bit_count && a.channel_type
        == b.channel_type
}

/// Whether two group layouts are equal: the same record ID size and the same channels
/// in the same order.
pub fn group_meta_equal(a: &GroupMeta, b: &GroupMeta) -> (r: bool)
    ensures
        r == (a@ == b@),
{
    if a.record_id_size != b.record_id_size || a.channels.len() != b.channels.len() {
        proof {
            if a@ == b@ {
                assert(a@.channels.len() == b@.channels.len());
            }
        }
        return false;
    }
    let mut i: usize = 0;
    while i < a.channels.len()
        invariant
            a.channels@.len() == b.channels@.len(),
            a.record_id_size == b.record_id_size,
            i <= a.channels@.len(),
            forall|k: int| 0 <= k < i ==> a.channels@[k]@ == b.channels@[k]@,
        decreases a.channels@.len() - i,
    {
        if !channel_meta_equal(&a.channels[i], &b.channels[i]) {
            proof {
                if a@ == b@ {
                    assert(a@.channels[i as int] == b@.channels[i as int]);
                }
            }
            return false;
        }
        i = i + 1;
    }
    assert(a@.channels =~= b@.channels);
    true
}

/// The first group of `gs` whose layout is `m`.
pub open spec fn spec_find_meta(gs: Seq<MergedGroupView>, m: GroupMetaView) -> Option<int>
    decreases gs.len(),
{
    if gs.len() == 0 {
        None
    } else if gs[0].meta == m {
        Some(0)
    } else {
        match spec_find_meta(gs.drop_first(), m) {
            Some(i) => Some(i + 1),
            None => None,
        }
    }
}

/// Each channel's values of `a`, followed by those of the same channel of `b`, where
/// `b` has it.
pub open spec fn spec_join_data(a: Seq<Seq<Option<DecodedValueView>>>, b: Seq<Seq<Option<DecodedValueView>>>) -> Seq<Seq<Option<DecodedValueView>>> {
    Seq::new(a.len(), |k: int| if k < b.len() { a[k] + b[k] } else { a[k] })
}

/// Merging one group into `gs`: joined to the first group of the same layout, or
/// added after the others.
pub open spec fn spec_merge_one(gs: Seq<MergedGroupView>, g: MergedGroupView) -> Seq<MergedGroupView> {
    match spec_find_meta(gs, g.meta) {
        Some(i) => gs.update(i, MergedGroupView { meta: gs[i].meta, data: spec_join_data(gs[i].data, g.data) }),
        None => gs.push(g),
    }
}

/// Merging the groups `others`, one after the other, into `gs`.
pub open spec fn spec_merge(gs: Seq<MergedGroupView>, others: Seq<MergedGroupView>) -> Seq<MergedGroupView>
    decreases others.len(),
{
    if others.len() == 0 {
        gs
    } else {
        spec_merge_one(spec_merge(gs, others.drop_last()), others.last())
    }
}

/// Each channel's values of `a`, followed by those of the same channel of `b`.
fn join_data(a: Vec<Vec<Option<DecodedValue>>>, b: Vec<Vec<Option<DecodedValue>>>) -> (r: Vec<Vec<Option<DecodedValue>>>)
    ensures
        data_views(r@) == spec_join_data(data_views(a@), data_views(b@)),
{
    let ghost a0 = a@;
    let ghost b0 = b@;
    let mut a = a;
    let mut b = b;
    let mut r: Vec<Vec<Option<DecodedValue>>> = Vec::new();
    while a.len() > 0
        invariant
            r@.len() + a@.len() == a0.len(),
            a@ == a0.subrange(r@.len() as int, a0.len() as int),
            b@ == if r@.len() < b0.len() { b0.subrange(r@.len() as int, b0.len() as int) } else { Seq::empty() },
            forall|k: int| 0 <= k < r@.len() ==> opt_values(#[trigger] r@[k]@) == if k < b0.len() {
                opt_values(a0[k]@) + opt_values(b0[k]@)
            } else {
                opt_values(a0[k]@)
            },
        decreases a@.len(),
    {
        let ghost k = r@.len() as int;
        let mut x = a.remove(0);
        assert(x == a0[k]);
        if b.len() > 0 {
            let mut y = b.remove(0);
            assert(y == b0[k]);
            let ghost xs = x@;
            x.append(&mut y);
            assert(opt_values(x@) =~= opt_values(xs) + opt_values(b0[k]@));
        }
        r.push(x);
        assert(a@ =~= a0.subrange(r@.len() as int, a0.len() as int));
        assert(b@ =~= if r@.len() < b0.len() { b0.subrange(r@.len() as int, b0.len() as int) } else { Seq::empty() });
    }
    assert(data_views(r@) =~= spec_join_data(data_views(a0), data_views(b0)));
    r
}

/// The position of the first group of `gs` with layout `m`.
fn find_meta(gs: &Vec<MergedGroup>, m: &GroupMeta) -> (r: Option<usize>)
    ensures
        match r {
            Some(i) => i < gs@.len() && spec_find_meta(group_views(gs@), m@) == Some(i as int),
            None => spec_find_meta(group_views(gs@), m@) is None,
        },
{
    let ghost v = group_views(gs@);
    let mut i: usize = 0;
    while i < gs.len()
        invariant
            v == group_views(gs@),
            i <= gs@.len(),
            forall|k: int| 0 <= k < i ==> v[k].meta != m@,
        decreases gs@.len() - i,
    {
        if group_meta_equal(&gs[i].meta, m) {
            proof {
                lemma_find_meta_first(v, m@, i as int);
            }
            return Some(i);
        }
        i = i + 1;
    }
    proof {
        lemma_find_meta_none(v, m@);
    }
    None
}

/// The first group with layout `m` is the first position that has it.
proof fn lemma_find_meta_first(gs: Seq<MergedGroupView>, m: GroupMetaView, i: int)
    requires
        0 <= i < gs.len(),
        gs[i].meta == m,
        forall|k: int| 0 <= k < i ==> gs[k].meta != m,
    ensures
        spec_find_meta(gs, m) == Some(i),
    decreases i,
{
    if i > 0 {
        assert forall|k: int| 0 <= k < i - 1 implies gs.drop_first()[k].meta != m by {
            assert(gs.drop_first()[k] == gs[k + 1]);
        }
        assert(gs[0].meta != m);
        lemma_find_meta_first(gs.drop_first(), m, i - 1);
    }
}

/// No group has layout `m`, so none is found.
proof fn lemma_find_meta_none(gs: Seq<MergedGroupView>, m: GroupMetaView)
    requires
        forall|k: int| 0 <= k < gs.len() ==> gs[k].meta != m,
    ensures
        spec_find_meta(gs, m) is None,
    decreases gs.len(),
{
    if gs.len() > 0 {
        assert forall|k: int| 0 <= k < gs.len() - 1 implies gs.drop_first()[k].meta != m by {
            assert(gs.drop_first()[k] == gs[k + 1]);
        }
        assert(gs[0].meta != m);
        lemma_find_meta_none(gs.drop_first(), m);
    }
}

/// Merge one group into `gs`: join its values to those of the first group of the same
/// layout, or add it after the others.
fn merge_one(gs: &mut Vec<MergedGroup>, g: MergedGroup)
    ensures
        group_views(final(gs)@) == spec_merge_one(group_views(old(gs)@), g@),
{
    let ghost before = group_views(gs@);
    match find_meta(gs, &g.meta) {
        Some(i) => {
            let mut h = gs.remove(i);
            let ghost hv = h@;
            assert(hv == before[i as int]);
            let data = join_data(h.data, g.data);
            h.data = data;
            gs.insert(i, h);
            assert(group_views(gs@) =~= before.update(
                i as int,
                MergedGroupView { meta: before[i as int].meta, data: spec_join_data(before[i as int].data, g@.data) },
            ));
        },
        None => {
            gs.push(g);
            assert(group_views(gs@) =~= before.push(g@));
        },
    }
}

/// Merge the groups `others`, one after the other, into `groups`: each is joined to the
/// first group of the same layout, channel by channel with its values after the
/// group's, or added after the others when no group has its layout.
pub fn merge_groups(groups: Vec<MergedGroup>, others: Vec<MergedGroup>) -> (r: Vec<MergedGroup>)
    ensures
        group_views(r@) == spec_merge(group_views(groups@), group_views(others@)),
{
    let ghost o0 = group_views(others@);
    let ghost g0 = group_views(groups@);
    let mut gs = groups;
    let mut rest = others;
    let ghost mut done: int = 0;
    while rest.len() > 0
        invariant
            0 <= done <= o0.len(),
            group_views(rest@) == o0.subrange(done, o0.len() as int),
            group_views(gs@) == spec_merge(g0, o0.take(done)),
        decreases rest@.len(),
    {
        assert(group_views(rest@).len() == rest@.len());
        assert(group_views(rest@)[0] == o0[done]);
        let ghost rv = group_views(rest@);
        let g = rest.remove(0);
        assert(g@ == o0[done]);
        assert(group_views(rest@) =~= rv.drop_first());
        merge_one(&mut gs, g);
        proof {
            assert(o0.take(done + 1).drop_last() =~= o0.take(done));
            assert(o0.take(done + 1).last() == o0[done]);
            done = done + 1;
        }
        assert(group_views(rest@) =~= o0.subrange(done, o0.len() as int));
    }
    assert(o0.take(done) =~= o0);
    gs
}

/// Whether `a` begins `b`.
pub open spec fn begins(a: Seq<Option<DecodedValueView>>, b: Seq<Option<DecodedValueView>>) -> bool {
    a.len() <= b.len() && b.subrange(0, a.len() as int) == a
}

/// Whether group `h` is group `g` with values added: the same layout and channel count,
/// and each channel's values beginning with those of `g`.
pub open spec fn extends_group(g: MergedGroupView, h: MergedGroupView) -> bool {
    &&& h.meta == g.meta
    &&& h.data.len() == g.data.len()
    &&& forall|k: int| 0 <= k < g.data.len() ==> begins(#[trigger] g.data[k], h.data[k])
}

/// The group found for a layout has that layout.
proof fn lemma_find_meta_found(gs: Seq<MergedGroupView>, m: GroupMetaView)
    ensures
        spec_find_meta(gs, m) matches Some(i) ==> 0 <= i < gs.len() && gs[i].meta == m,
    decreases gs.len(),
{
    if gs.len() > 0 && gs[0].meta != m {
        lemma_find_meta_found(gs.drop_first(), m);
    }
}

/// Merging keeps every group, in its place and with its layout, each channel's values
/// followed by those merged into it; and every merged group's layout is the layout of
/// some group of the result, its own where no group had it.
pub proof fn lemma_merge_keeps_groups(gs: Seq<MergedGroupView>, others: Seq<MergedGroupView>)
    ensures
        spec_merge(gs, others).len() >= gs.len(),
        forall|i: int| 0 <= i < gs.len() ==> extends_group(gs[i], #[trigger] spec_merge(gs, others)[i]),
        forall|j: int|
            0 <= j < others.len() ==> exists|i: int|
                0 <= i < spec_merge(gs, others).len() && #[trigger] spec_merge(gs, others)[i].meta == (#[trigger] others[j]).meta,
    decreases others.len(),
{
    if others.len() == 0 {
        assert forall|i: int| 0 <= i < gs.len() implies extends_group(gs[i], #[trigger] spec_merge(gs, others)[i]) by {
            assert forall|k: int| 0 <= k < gs[i].data.len() implies begins(#[trigger] gs[i].data[k], gs[i].data[k]) by {
                assert(gs[i].data[k].subrange(0, gs[i].data[k].len() as int) =~= gs[i].data[k]);
            }
        }
    } else {
        let prev = others.drop_last();
        let g = others.last();
        lemma_merge_keeps_groups(gs, prev);
        let ms = spec_merge(gs, prev);
        let r = spec_merge(gs, others);
        assert(r == spec_merge_one(ms, g));
        lemma_find_meta_found(ms, g.meta);
        assert(r.len() >= ms.len());
        assert forall|i: int| 0 <= i < ms.len() implies extends_group(ms[i], #[trigger] r[i]) by {
            match spec_find_meta(ms, g.meta) {
                Some(p) => {
                    if i == p {
                        let joined = spec_join_data(ms[i].data, g.data);
                        assert forall|k: int| 0 <= k < ms[i].data.len() implies begins(#[trigger] ms[i].data[k], r[i].data[k]) by {
                            assert(r[i].data[k] == joined[k]);
                            assert(joined[k].subrange(0, ms[i].data[k].len() as int) =~= ms[i].data[k]);
                        }
                    } else {
                        assert(r[i] == ms[i]);
                        assert forall|k: int| 0 <= k < ms[i].data.len() implies begins(#[trigger] ms[i].data[k], r[i].data[k]) by {
                            assert(r[i].data[k].subrange(0, ms[i].data[k].len() as int) =~= ms[i].data[k]);
                        }
                    }
                },
                None => {
                    assert(r[i] == ms[i]);
                    assert forall|k: int| 0 <= k < ms[i].data.len() implies begins(#[trigger] ms[i].data[k], r[i].data[k]) by {
                        assert(r[i].data[k].subrange(0, ms[i].data[k].len() as int) =~= ms[i].data[k]);
                    }
                },
            }
        }
        assert forall|i: int| 0 <= i < gs.len() implies extends_group(gs[i], #[trigger] r[i]) by {
            assert(extends_group(gs[i], ms[i]));
            assert(extends_group(ms[i], r[i]));
            assert forall|k: int| 0 <= k < gs[i].data.len() implies begins(#[trigger] gs[i].data[k], r[i].data[k]) by {
                assert(begins(gs[i].data[k], ms[i].data[k]));
                assert(begins(ms[i].data[k], r[i].data[k]));
                assert(r[i].data[k].subrange(0, gs[i].data[k].len() as int) =~= ms[i].data[k].subrange(0, gs[i].data[k].len() as int));
            }
        }
        assert forall|j: int| 0 <= j < others.len() implies exists|i: int|
            0 <= i < r.len() && #[trigger] r[i].meta == (#[trigger] others[j]).meta by {
            if j < prev.len() {
                assert(others[j] == prev[j]);
                let i = choose|i: int| 0 <= i < ms.len() && #[trigger] ms[i].meta == (#[trigger] prev[j]).meta;
                assert(extends_group(ms[i], r[i]));
                assert(r[i].meta == others[j].meta);
            } else {
                assert(others[j] == g);
                match spec_find_meta(ms, g.meta) {
                    Some(p) => {
                        assert(r[p].meta == g.meta);
                    },
                    None => {
                        assert(r[ms.len() as int] == g);
                    },
                }
            }
        }
    }
}

/// The layout of an indexed channel.
pub open spec fn spec_channel_meta(c: IndexedChannelView) -> ChannelMetaView {
    ChannelMetaView {
        name: c.name,
        data_type: c.data_type,
        bit_offset: c.bit_offset,
        byte_offset: c.byte_offset,
        bit_count: c.bit_count,
        channel_type: c.channel_type,
    }
}

/// The layout of group `gi` of an index.
pub open spec fn spec_group_meta(idx: MdfIndex, gi: int) -> GroupMetaView {
    GroupMetaView {
        record_id_size: idx@.channel_groups[gi].record_id_size,
        channels: idx@.channel_groups[gi].channels.map_values(|c: IndexedChannelView| spec_channel_meta(c)),
    }
}

/// The values of channels `ci..` of group `gi`, channel by channel, as read from the
/// file bytes `c`; the first error, if reading a channel fails.
pub open spec fn spec_group_data(idx: MdfIndex, gi: int, ci: int, c: Seq<u8>) -> Result<Seq<Seq<Option<DecodedValueView>>>, MdfError>
    decreases idx.channel_groups@[gi].channels@.len() - ci,
{
    if ci < 0 || ci >= idx.channel_groups@[gi].channels@.len() {
        Ok(Seq::empty())
    } else {
        match spec_channel_values(idx, gi, ci, c) {
            Err(e) => Err(e),
            Ok(v) => prepend(seq![v], spec_group_data(idx, gi, ci + 1, c)),
        }
    }
}

/// Groups `gi..` of an index with their values, as read from the file bytes `c`; the
/// first error, if reading fails.
pub open spec fn spec_collect_groups(idx: MdfIndex, gi: int, c: Seq<u8>) -> Result<Seq<MergedGroupView>, MdfError>
    decreases idx.channel_groups@.len() - gi,
{
    if gi < 0 || gi >= idx.channel_groups@.len() {
        Ok(Seq::empty())
    } else {
        match spec_group_data(idx, gi, 0, c) {
            Err(e) => Err(e),
            Ok(d) => prepend(
                seq![MergedGroupView { meta: spec_group_meta(idx, gi), data: d }],
                spec_collect_groups(idx, gi + 1, c),
            ),
        }
    }
}

/// Whether a group layout is that of an indexed group: the same record ID size and, for
/// each channel in order, the same name, data type, bit offset, byte offset, bit count
/// and channel type.
pub open spec fn layout_of(m: GroupMetaView, g: crate::index::IndexedChannelGroupView) -> bool {
    &&& m.record_id_size == g.record_id_size
    &&& m.channels.len() == g.channels.len()
    &&& forall|i: int| 0 <= i < g.channels.len() ==> {
        &&& (#[trigger] m.channels[i]).name == g.channels[i].name
        &&& m.channels[i].data_type == g.channels[i].data_type
        &&& m.channels[i].bit_offset == g.channels[i].bit_offset
        &&& m.channels[i].byte_offset == g.channels[i].byte_offset
        &&& m.channels[i].bit_count == g.channels[i].bit_count
        &&& m.channels[i].channel_type == g.channels[i].channel_type
    }
}

/// Collecting groups `gi..` of an index gives one group per indexed group, in order,
/// each with the layout of its indexed group and one value list per channel.
pub proof fn lemma_collect_keeps_layouts(idx: MdfIndex, gi: int, c: Seq<u8>)
    requires
        0 <= gi,
    ensures
        spec_collect_groups(idx, gi, c) matches Ok(gs) ==> {
            &&& gs.len() == if gi < idx@.channel_groups.len() { idx@.channel_groups.len() - gi } else { 0 }
            &&& forall|k: int| 0 <= k < gs.len() ==> {
                &&& layout_of((#[trigger] gs[k]).meta, idx@.channel_groups[gi + k])
                &&& gs[k].data.len() == idx@.channel_groups[gi + k].channels.len()
            }
            &&& forall|k: int, i: int| 0 <= k < gs.len() && 0 <= i < gs[k].data.len() ==>
                spec_channel_values(idx, gi + k, i, c) == Ok::<Seq<Option<DecodedValueView>>, MdfError>(#[trigger] gs[k].data[i])
        },
    decreases idx.channel_groups@.len() - gi,
{
    if gi < idx.channel_groups@.len() {
        lemma_collect_keeps_layouts(idx, gi + 1, c);
        lemma_group_data_len(idx, gi, 0, c);
        match spec_group_data(idx, gi, 0, c) {
            Ok(d) => {
                let head = MergedGroupView { meta: spec_group_meta(idx, gi), data: d };
                assert(idx@.channel_groups[gi] == idx.channel_groups@[gi]@);
                assert(layout_of(head.meta, idx@.channel_groups[gi]));
                match spec_collect_groups(idx, gi + 1, c) {
                    Ok(rest) => {
                        let gs = seq![head] + rest;
                        assert forall|k: int| 0 <= k < gs.len() implies {
                            &&& layout_of((#[trigger] gs[k]).meta, idx@.channel_groups[gi + k])
                            &&& gs[k].data.len() == idx@.channel_groups[gi + k].channels.len()
                        } by {
                            if k > 0 {
                                assert(gs[k] == rest[k - 1]);
                            }
                        }
                        assert forall|k: int, i: int| 0 <= k < gs.len() && 0 <= i < gs[k].data.len() implies
                            spec_channel_values(idx, gi + k, i, c) == Ok::<Seq<Option<DecodedValueView>>, MdfError>(#[trigger] gs[k].data[i]) by {
                            if k > 0 {
                                assert(gs[k] == rest[k - 1]);
                                assert(gi + 1 + (k - 1) == gi + k);
                            }
                        }
                    },
                    Err(_) => {},
                }
            },
            Err(_) => {},
        }
    }
}

/// Reading channels `ci..` of group `gi` gives one value list per channel: the values
/// of that channel.
proof fn lemma_group_data_len(idx: MdfIndex, gi: int, ci: int, c: Seq<u8>)
    requires
        0 <= gi < idx.channel_groups@.len(),
        0 <= ci,
    ensures
        spec_group_data(idx, gi, ci, c) matches Ok(d) ==> {
            &&& d.len() == if ci < idx.channel_groups@[gi].channels@.len() {
                idx.channel_groups@[gi].channels@.len() - ci
            } else {
                0
            }
            &&& forall|j: int| 0 <= j < d.len() ==> spec_channel_values(idx, gi, ci + j, c)
                == Ok::<Seq<Option<DecodedValueView>>, MdfError>(#[trigger] d[j])
        },
    decreases idx.channel_groups@[gi].channels@.len() - ci,
{
    if ci < idx.channel_groups@[gi].channels@.len() {
        lemma_group_data_len(idx, gi, ci + 1, c);
        match spec_group_data(idx, gi, ci, c) {
            Ok(d) => {
                match spec_channel_values(idx, gi, ci, c) {
                    Ok(v) => {
                        match spec_group_data(idx, gi, ci + 1, c) {
                            Ok(rest) => {
                                assert(d == seq![v] + rest);
                                assert forall|j: int| 0 <= j < d.len() implies spec_channel_values(idx, gi, ci + j, c)
                                    == Ok::<Seq<Option<DecodedValueView>>, MdfError>(#[trigger] d[j]) by {
                                    if j > 0 {
                                        assert(d[j] == rest[j - 1]);
                                        assert(ci + 1 + (j - 1) == ci + j);
                                    }
                                }
                            },
                            Err(_) => {},
                        }
                    },
                    Err(_) => {},
                }
            },
            Err(_) => {},
        }
    }
}

/// The layout of an indexed channel.
fn channel_meta(ch: &IndexedChannel) -> (r: ChannelMeta)
    ensures
        r@ == spec_channel_meta(ch@),
{
    let name = match &ch.name {
        Some(n) => Some(n.clone()),
        None => None,
    };
    ChannelMeta {
        name,
        data_type: ch.data_type,
        bit_offset: ch.bit_offset,
        byte_offset: ch.byte_offset,
        bit_count: ch.bit_count,
        channel_type: ch.channel_type,
    }
}

/// Read the groups of an indexed file with their values, through a byte-range reader
/// over the file: for each group its layout (record ID size and channels) and, channel
/// by channel, its values.
pub fn collect_groups<R: ByteRangeReader<Error = MdfError>>(index: &MdfIndex, reader: &mut R) -> (r: Result<Vec<MergedGroup>, MdfError>)
    ensures
        final(reader).contents() == old(reader).contents(),
        final(reader).reliable() == old(reader).reliable(),
        read_follows(r, spec_collect_groups(*index, 0, old(reader).contents()), |v: Vec<MergedGroup>| group_views(v@), old(reader).reliable(), exact_source(*old(reader))),
{
    let ghost c = reader.contents();
    let ghost rel = reader.reliable();
    let mut groups: Vec<MergedGroup> = Vec::new();
    let n = index.channel_groups.len();
    let mut gi: usize = 0;
    while gi < n
        invariant
            reader.contents() == c,
            reader.reliable() == rel,
            c == old(reader).contents(),
            rel == old(reader).reliable(),
            n == index.channel_groups@.len(),
            gi <= n,
            spec_collect_groups(*index, 0, c) == prepend(group_views(groups@), spec_collect_groups(*index, gi as int, c)),
        decreases n - gi,
    {
        let group = &index.channel_groups[gi];
        let m = group.channels.len();
        let mut channels: Vec<ChannelMeta> = Vec::new();
        let mut data: Vec<Vec<Option<DecodedValue>>> = Vec::new();
        let mut ci: usize = 0;
        assert(index@.channel_groups[gi as int] == group@);
        while ci < m
            invariant
                reader.contents() == c,
                reader.reliable() == rel,
                c == old(reader).contents(),
                rel == old(reader).reliable(),
                n == index.channel_groups@.len(),
                gi < n,
                spec_collect_groups(*index, 0, c) == prepend(group_views(groups@), spec_collect_groups(*index, gi as int, c)),
                group == index.channel_groups@[gi as int],
                m == group.channels@.len(),
                ci <= m,
                channels@.len() == ci,
                forall|k: int| 0 <= k < ci ==> (#[trigger] channels@[k])@ == spec_channel_meta(group.channels@[k]@),
                spec_group_data(*index, gi as int, 0, c) == prepend(data_views(data@), spec_group_data(*index, gi as int, ci as int, c)),
            decreases m - ci,
        {
            channels.push(channel_meta(&group.channels[ci]));
            let ghost before = data_views(data@);
            let v = match index.read_channel_values(gi, ci, reader) {
                Ok(v) => v,
                Err(e) => {
                    proof {
                        if rel {
                            assert(spec_channel_values(*index, gi as int, ci as int, c) is Err);
                            assert(spec_group_data(*index, gi as int, ci as int, c) is Err);
                            assert(spec_group_data(*index, gi as int, 0, c) is Err);
                            assert(spec_collect_groups(*index, gi as int, c) is Err);
                            assert(spec_collect_groups(*index, 0, c) is Err);
                        }
                    }
                    return Err(e);
                },
            };
            data.push(v);
            proof {
                assert(data_views(data@) =~= before + seq![opt_values(v@)]);
                lemma_prepend_twice(before, seq![opt_values(v@)], spec_group_data(*index, gi as int, ci + 1, c));
            }
            ci = ci + 1;
        }
        let ghost d = data_views(data@);
        assert(spec_group_data(*index, gi as int, m as int, c) == Ok::<Seq<Seq<Option<DecodedValueView>>>, MdfError>(Seq::empty()));
        assert(d + Seq::<Seq<Option<DecodedValueView>>>::empty() =~= d);
        let meta = GroupMeta { record_id_size: group.record_id_size, channels };
        assert(meta@.channels =~= spec_group_meta(*index, gi as int).channels);
        let ghost before = group_views(groups@);
        groups.push(MergedGroup { meta, data });
        proof {
            assert(group_views(groups@) =~= before + seq![MergedGroupView { meta: spec_group_meta(*index, gi as int), data: d }]);
            lemma_prepend_twice(
                before,
                seq![MergedGroupView { meta: spec_group_meta(*index, gi as int), data: d }],
                spec_collect_groups(*index, gi + 1, c),
            );
        }
        gi = gi + 1;
    }
    assert(group_views(groups@) + Seq::<MergedGroupView>::empty() =~= group_views(groups@));
    Ok(groups)
}

} // verus!

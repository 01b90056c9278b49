use mdf4_rs::blocks::DataType;
use mdf4_rs::can::RawCanLogger;
use mdf4_rs::index::MdfIndex;
use mdf4_rs::merge::{collect_groups, group_meta_equal, merge_groups, ChannelMeta, GroupMeta, MergedGroup};
use mdf4_rs::reader::SliceRangeReader;
use mdf4_rs::values::DecodedValue;

fn meta(name: &str, bit_count: u32) -> GroupMeta {
    GroupMeta {
        record_id_size: 0,
        channels: vec![ChannelMeta {
            name: Some(name.to_string()),
            data_type: DataType::UnsignedIntegerLE,
            bit_offset: 0,
            byte_offset: 0,
            bit_count,
            channel_type: 0,
        }],
    }
}

fn ints(vs: &[u64]) -> Vec<Option<DecodedValue>> {
    vs.iter().map(|v| Some(DecodedValue::UnsignedInteger(*v))).collect()
}

fn group(name: &str, bit_count: u32, vs: &[u64]) -> MergedGroup {
    MergedGroup { meta: meta(name, bit_count), data: vec![ints(vs)] }
}

#[test]
fn layouts_compare_by_every_field() {
    assert!(group_meta_equal(&meta("speed", 16), &meta("speed", 16)));
    assert!(!group_meta_equal(&meta("speed", 16), &meta("speed", 32)));
    assert!(!group_meta_equal(&meta("speed", 16), &meta("rpm", 16)));
    let mut other = meta("speed", 16);
    other.record_id_size = 1;
    assert!(!group_meta_equal(&meta("speed", 16), &other));
    let mut unnamed = meta("speed", 16);
    unnamed.channels[0].name = None;
    assert!(!group_meta_equal(&meta("speed", 16), &unnamed));
}

#[test]
fn groups_of_the_same_layout_are_joined_and_others_added() {
    let first = vec![group("speed", 16, &[1, 2]), group("rpm", 16, &[10])];
    let second = vec![group("rpm", 16, &[11, 12]), group("temp", 8, &[40]), group("speed", 16, &[3])];
    let merged = merge_groups(first, second);
    assert_eq!(merged.len(), 3);
    assert!(group_meta_equal(&merged[0].meta, &meta("speed", 16)));
    assert_eq!(merged[0].data, vec![ints(&[1, 2, 3])]);
    assert!(group_meta_equal(&merged[1].meta, &meta("rpm", 16)));
    assert_eq!(merged[1].data, vec![ints(&[10, 11, 12])]);
    assert!(group_meta_equal(&merged[2].meta, &meta("temp", 8)));
    assert_eq!(merged[2].data, vec![ints(&[40])]);
}

#[test]
fn merging_nothing_keeps_the_groups() {
    let merged = merge_groups(vec![group("speed", 16, &[1])], Vec::new());
    assert_eq!(merged.len(), 1);
    assert_eq!(merged[0].data, vec![ints(&[1])]);
    let merged = merge_groups(Vec::new(), vec![group("speed", 16, &[1]), group("speed", 16, &[2])]);
    assert_eq!(merged.len(), 1);
    assert_eq!(merged[0].data, vec![ints(&[1, 2])]);
}

#[test]
fn two_can_logs_merge_group_by_group() {
    let mut a = RawCanLogger::new().unwrap();
    a.log(0x100, 10, &[1, 2]);
    let a_bytes = a.finalize().unwrap();
    let mut b = RawCanLogger::new().unwrap();
    b.log(0x101, 20, &[3]);
    b.log_extended(0x1234, 30, &[4]);
    let b_bytes = b.finalize().unwrap();

    let a_index = MdfIndex::from_reader(&mut SliceRangeReader::new(&a_bytes), a_bytes.len() as u64).unwrap();
    let b_index = MdfIndex::from_reader(&mut SliceRangeReader::new(&b_bytes), b_bytes.len() as u64).unwrap();
    let a_groups = collect_groups(&a_index, &mut SliceRangeReader::new(&a_bytes)).unwrap();
    let b_groups = collect_groups(&b_index, &mut SliceRangeReader::new(&b_bytes)).unwrap();
    assert_eq!(a_groups.len(), 1);
    assert_eq!(b_groups.len(), 2);
    assert_eq!(a_groups[0].meta.channels.len(), 2);
    assert_eq!(a_groups[0].meta.channels[0].name.as_deref(), Some("Timestamp"));
    assert_eq!(a_groups[0].meta.channels[1].bit_count, 13 * 8);

    // Standard and extended classic frames share one record layout, so all three
    // frames end up in one group.
    let merged = merge_groups(a_groups, b_groups);
    assert_eq!(merged.len(), 1);
    assert_eq!(merged[0].data[0], ints(&[10, 20, 30]));
    assert_eq!(merged[0].data[1].len(), 3);
    assert_eq!(merged[0].data[1][2], Some(DecodedValue::ByteArray(vec![0x34, 0x12, 0, 0x80, 1, 4, 0, 0, 0, 0, 0, 0, 0])));
}

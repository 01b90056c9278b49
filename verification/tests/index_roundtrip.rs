use mdf4_rs::blocks::DataType;
use mdf4_rs::can::RawCanLogger;
use mdf4_rs::error::MdfError;
use mdf4_rs::index::MdfIndex;
use mdf4_rs::reader::SliceRangeReader;
use mdf4_rs::values::DecodedValue;

fn index_of(bytes: &[u8]) -> MdfIndex {
    let mut reader = SliceRangeReader::new(bytes);
    MdfIndex::from_reader(&mut reader, bytes.len() as u64).unwrap()
}

#[test]
fn test_from_file_append() {
    // Create initial capture
    let mut logger = RawCanLogger::new().unwrap();
    logger.log(0x100, 1_000_000, &[0x01, 0x02, 0x03, 0x04]);
    logger.log(0x100, 2_000_000, &[0x05, 0x06, 0x07, 0x08]);
    logger.log(0x200, 1_500_000, &[0xAA, 0xBB]);

    let initial_bytes = logger.finalize().unwrap();
    assert!(!initial_bytes.is_empty());

    // Load and append
    let index = index_of(&initial_bytes);
    let mut reader = SliceRangeReader::new(&initial_bytes);
    let mut logger = RawCanLogger::from_index_with_source_name(&index, &mut reader, "CAN").unwrap();

    // Verify loaded frames
    assert_eq!(logger.loaded_frame_count(), 3);
    assert_eq!(logger.last_timestamp_us(), 2_000_000);

    // Append new frames
    let next_ts = logger.last_timestamp_us() + 1_000_000;
    logger.log(0x100, next_ts, &[0x11, 0x22, 0x33, 0x44]);
    logger.log(0x300, next_ts + 500_000, &[0xFF]);

    assert_eq!(logger.total_frame_count(), 5);

    // Finalize and verify round-trip
    let appended_bytes = logger.finalize().unwrap();
    assert!(appended_bytes.len() > initial_bytes.len());
}

#[test]
fn index_of_can_log_lists_groups_and_channels() {
    let mut logger = RawCanLogger::new().unwrap();
    logger.log(0x100, 10, &[1, 2, 3]);
    logger.log_extended(0x18FEF100, 20, &[4, 5, 6, 7, 8, 9, 10, 11]);
    logger.log(0x101, 30, &[0xAB]);
    let bytes = logger.finalize().unwrap();
    let index = index_of(&bytes);

    let groups = index.list_channel_groups();
    assert_eq!(groups.len(), 2);
    assert_eq!(groups[0], (0, "CAN_DataFrame", 2));
    assert_eq!(groups[1], (1, "CAN_DataFrame_IDE", 2));
    assert_eq!(index.channel_groups[0].record_count, 2);
    assert_eq!(index.channel_groups[1].record_count, 1);
    assert_eq!(index.channel_groups[0].record_size, 8 + 13);

    let channels = index.list_channels(0).unwrap();
    assert_eq!(channels[0].1, "Timestamp");
    assert_eq!(*channels[0].2, DataType::UnsignedIntegerLE);
    assert_eq!(channels[1].1, "CAN_DataFrame");
    assert_eq!(*channels[1].2, DataType::ByteArray);
    assert_eq!(index.file_size, bytes.len() as u64);
    assert_eq!(index.find_channel_group_by_name("CAN_DataFrame_IDE"), Some(1));
    assert_eq!(index.find_channel_by_name_global("CAN_DataFrame"), Some((0, 1)));
}

#[test]
fn read_channel_values_gives_back_written_records() {
    let mut logger = RawCanLogger::new().unwrap();
    logger.log(0x123, 1000, &[0xAA, 0xBB, 0xCC, 0xDD]);
    logger.log(0x124, 2500, &[0x01]);
    let bytes = logger.finalize().unwrap();
    let index = index_of(&bytes);
    let mut reader = SliceRangeReader::new(&bytes);

    let ts = index.read_channel_values(0, 0, &mut reader).unwrap();
    assert_eq!(ts, vec![Some(DecodedValue::UnsignedInteger(1000)), Some(DecodedValue::UnsignedInteger(2500))]);

    let df = index.read_channel_values_by_name("CAN_DataFrame", &mut reader).unwrap();
    assert_eq!(
        df[0],
        Some(DecodedValue::ByteArray(vec![0x23, 0x01, 0, 0, 4, 0xAA, 0xBB, 0xCC, 0xDD, 0, 0, 0, 0]))
    );
    assert_eq!(
        df[1],
        Some(DecodedValue::ByteArray(vec![0x24, 0x01, 0, 0, 1, 0x01, 0, 0, 0, 0, 0, 0, 0]))
    );

    // Byte ranges of the data channel: one range over both records, at the data block.
    let ranges = index.get_channel_byte_ranges(0, 1).unwrap();
    assert_eq!(ranges.len(), 1);
    assert_eq!(ranges[0].1, 21 + 13);
    assert_eq!(&bytes[ranges[0].0 as usize..ranges[0].0 as usize + 13], &[0x23, 0x01, 0, 0, 4, 0xAA, 0xBB, 0xCC, 0xDD, 0, 0, 0, 0]);
}

#[test]
fn unknown_channels_and_bad_files_are_errors() {
    let logger = RawCanLogger::new().unwrap();
    let bytes = logger.finalize().unwrap();
    let index = index_of(&bytes);
    assert_eq!(index.channel_groups.len(), 0);
    let mut reader = SliceRangeReader::new(&bytes);
    assert_eq!(index.read_channel_values(0, 0, &mut reader), Err(MdfError::NotFound));
    assert_eq!(index.read_channel_values_by_name("Timestamp", &mut reader), Err(MdfError::NotFound));

    // Not an MDF file.
    let junk = vec![0u8; 200];
    let mut reader = SliceRangeReader::new(&junk);
    assert_eq!(MdfIndex::from_reader(&mut reader, 200).err(), Some(MdfError::BlockIdMismatch));

    // Cut short.
    let mut reader = SliceRangeReader::new(&bytes[..100]);
    assert_eq!(MdfIndex::from_reader(&mut reader, 100).err(), Some(MdfError::UnexpectedEof));
}

#[test]
fn loading_a_can_log_gives_back_its_frames_by_type() {
    let mut logger = RawCanLogger::new().unwrap();
    logger.log(0x100, 10, &[1, 2, 3]);
    logger.log_extended(0x18FEF100, 20, &[4, 5]);
    logger.log(0x101, 30, &[6]);
    let data: Vec<u8> = (0..16).collect();
    logger.log_fd(0x102, 40, &data, mdf4_rs::can::FdFlags::new(true, false));
    let bytes = logger.finalize().unwrap();
    let index = index_of(&bytes);
    let mut reader = SliceRangeReader::new(&bytes);
    let loaded = RawCanLogger::from_index_with_source_name(&index, &mut reader, "CAN").unwrap();

    // Classic standard frames first, then classic extended, then large FD frames.
    let frames = &loaded.buffer;
    assert_eq!(frames.len(), 4);
    assert_eq!((frames[0].can_id, frames[0].timestamp_us, frames[0].data.clone()), (0x100, 10, vec![1, 2, 3]));
    assert_eq!((frames[1].can_id, frames[1].timestamp_us, frames[1].data.clone()), (0x101, 30, vec![6]));
    assert_eq!((frames[2].can_id, frames[2].timestamp_us, frames[2].is_extended), (0x18FEF100, 20, true));
    assert_eq!(frames[2].data, vec![4, 5]);
    assert_eq!((frames[3].can_id, frames[3].is_fd, frames[3].dlc), (0x102, true, 10));
    assert_eq!(frames[3].data, data);
    assert!(frames[3].fd_flags.brs());
    assert!(!frames[3].fd_flags.esi());
}

#[test]
fn a_small_fd_frame_loads_back_as_classic() {
    // With at most 8 data bytes the FD flags are not stored, so the frame reads back
    // as a classic frame.
    let mut logger = RawCanLogger::new().unwrap();
    logger.log_fd(0x100, 10, &[1, 2], mdf4_rs::can::FdFlags::new(true, false));
    let bytes = logger.finalize().unwrap();
    let index = index_of(&bytes);
    let mut reader = SliceRangeReader::new(&bytes);
    let loaded = RawCanLogger::from_index_with_source_name(&index, &mut reader, "CAN").unwrap();
    assert_eq!(loaded.buffer.len(), 1);
    assert!(!loaded.buffer[0].is_fd);
    assert_eq!(loaded.buffer[0].data, vec![1, 2]);
}

#[test]
fn the_can_channel_names_decode_as_themselves() {
    mdf4_rs::can::read_back::channel_names_decoded();
}

use mdf4_rs::can::load::frame_from_dataframe;
use mdf4_rs::can::raw_frame::{FrameType, RawFrame};
use mdf4_rs::can::{value_descriptions_to_mapping, CanDbcLoggerConfig, FdFlags};
use mdf4_rs::ethernet::RawEthernetLogger;
use mdf4_rs::index::MdfIndex;
use mdf4_rs::reader::SliceRangeReader;

#[test]
fn can_frame_types_and_group_names() {
    assert_eq!(FrameType::from_frame(false, false, 8), FrameType::Classic);
    assert_eq!(FrameType::from_frame(true, true, 8), FrameType::FdSmallExtended);
    assert_eq!(FrameType::from_frame(true, true, 9), FrameType::FdLargeExtended);
    assert_eq!(FrameType::FdLarge.max_data_len(), 64);
    assert_eq!(FrameType::FdSmall.max_data_len(), 8);
    assert_eq!(FrameType::FdLargeExtended.group_name("CAN1"), b"CAN1_DataFrame_FD_IDE_DLC_over_8".to_vec());
    assert_eq!(FrameType::ClassicExtended.group_name("CAN"), b"CAN_DataFrame_IDE".to_vec());
    assert_eq!(FrameType::Classic.channel_name(), b"CAN_DataFrame".to_vec());
}

#[test]
fn large_fd_dataframe_holds_flags_and_reads_back() {
    let data: Vec<u8> = (0..20).collect();
    let frame = RawFrame::new_fd(7, 0x1ABCDEF, 11, &data, FdFlags::new(true, true), true);
    let bytes = frame.to_dataframe_bytes();
    assert_eq!(bytes.len(), 70);
    assert_eq!(&bytes[0..4], &(0x1ABCDEFu32 | 0x8000_0000).to_le_bytes());
    assert_eq!(bytes[4], 11);
    assert_eq!(bytes[5], 0x03);
    assert_eq!(&bytes[6..26], &data[..]);
    assert!(bytes[26..].iter().all(|&b| b == 0));

    let back = frame_from_dataframe(7, &bytes).unwrap();
    assert_eq!(back.can_id, 0x1ABCDEF);
    assert!(back.is_extended);
    assert!(back.is_fd);
    assert_eq!(back.dlc, 11);
    assert_eq!(back.data, data);
    assert!(back.fd_flags.brs() && back.fd_flags.esi());

    assert!(frame_from_dataframe(0, &[1, 2, 3, 4]).is_none());
}

#[test]
fn ethernet_jumbo_frames_get_their_own_group() {
    let mut logger = RawEthernetLogger::with_source_name("eth0").unwrap();
    let mut big = vec![0xFFu8; 14];
    big.extend(std::iter::repeat(0x5A).take(3000));
    let small = vec![0x01u8; 60];
    assert!(logger.log_rx(1, &big));
    assert!(logger.log_tx(2, &small));
    assert!(logger.has_jumbo_frames());
    assert_eq!(logger.jumbo_frame_count(), 1);
    assert_eq!(logger.standard_frame_count(), 1);
    let bytes = logger.finalize().unwrap();
    let mut reader = SliceRangeReader::new(&bytes);
    let index = MdfIndex::from_reader(&mut reader, bytes.len() as u64).unwrap();
    let groups = index.list_channel_groups();
    assert_eq!(groups.len(), 2);
    assert_eq!(groups[0].1, "eth0_ETH_Frame");
    assert_eq!(groups[1].1, "eth0_ETH_Frame_Jumbo");
    assert_eq!(index.channel_groups[0].record_size, 8 + 3 + 1514);
    assert_eq!(index.channel_groups[1].record_size, 8 + 3 + 9014);
    assert_eq!(index.channel_groups[1].record_count, 1);
}

#[test]
fn dbc_config_defaults_and_value_mapping() {
    let c = CanDbcLoggerConfig::default();
    assert!(!c.store_raw_values);
    assert!(c.include_units && c.include_limits && c.include_conversions && c.include_value_descriptions);
    let (mapping, default) = value_descriptions_to_mapping(&[(0, "Off"), (1, "On"), (-1, "Error")], "Unknown");
    assert_eq!(mapping, vec![(0, "Off".to_string()), (1, "On".to_string()), (-1, "Error".to_string())]);
    assert_eq!(default, "Unknown");
}

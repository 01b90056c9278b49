use mdf4_rs::flexray::{FlexRayChannel, FlexRayFrame, RawFlexRayLogger};

#[test]
fn test_raw_flexray_logger_basic() {
    let mut logger = RawFlexRayLogger::new().unwrap();

    assert!(logger.log(100, 0, FlexRayChannel::A, 1000, &[0x01, 0x02, 0x03, 0x04]));
    assert!(logger.log(101, 1, FlexRayChannel::B, 2000, &[0x05, 0x06]));
    assert!(logger.log(100, 2, FlexRayChannel::A, 3000, &[0x07, 0x08, 0x09]));

    assert_eq!(logger.total_frame_count(), 3);
    assert_eq!(logger.frame_count_for_slot(100), 2);
    assert_eq!(logger.frame_count_for_slot(101), 1);
    assert_eq!(logger.unique_slot_count(), 2);

    let mdf_bytes = logger.finalize().unwrap();
    assert!(!mdf_bytes.is_empty());
    assert_eq!(&mdf_bytes[0..3], b"MDF");
}

#[test]
fn test_raw_flexray_logger_channels() {
    let mut logger = RawFlexRayLogger::new().unwrap();

    assert!(logger.log_channel_a(100, 0, 1000, &[0x01]));
    assert!(logger.log_channel_b(101, 0, 2000, &[0x02]));
    assert!(logger.log(102, 0, FlexRayChannel::AB, 3000, &[0x03]));

    assert_eq!(logger.channel_a_count(), 2); // A and AB
    assert_eq!(logger.channel_b_count(), 2); // B and AB

    let mdf_bytes = logger.finalize().unwrap();
    assert!(!mdf_bytes.is_empty());
}

#[test]
fn test_raw_flexray_logger_tx_rx() {
    let mut logger = RawFlexRayLogger::new().unwrap();

    assert!(logger.log_tx(100, 0, FlexRayChannel::A, 1000, &[0x01]));
    assert!(logger.log_rx(100, 1, FlexRayChannel::A, 2000, &[0x02]));
    assert!(logger.log_tx(100, 2, FlexRayChannel::A, 3000, &[0x03]));

    assert_eq!(logger.tx_frame_count(), 2);
    assert_eq!(logger.rx_frame_count(), 1);

    let mdf_bytes = logger.finalize().unwrap();
    assert!(!mdf_bytes.is_empty());
}

#[test]
fn test_raw_flexray_logger_special_frames() {
    let mut logger = RawFlexRayLogger::new().unwrap();

    assert!(logger.log_null_frame(50, 0, FlexRayChannel::A, 1000));
    assert!(logger.log_startup(1, 0, FlexRayChannel::AB, 0, &[0x00; 8]));

    assert_eq!(logger.null_frame_count(), 1);
    assert_eq!(logger.startup_frame_count(), 1);

    let mdf_bytes = logger.finalize().unwrap();
    assert!(!mdf_bytes.is_empty());
}

#[test]
fn test_raw_flexray_logger_empty() {
    let logger = RawFlexRayLogger::new().unwrap();
    assert_eq!(logger.total_frame_count(), 0);

    let mdf_bytes = logger.finalize().unwrap();
    assert!(!mdf_bytes.is_empty());
}

#[test]
fn test_raw_flexray_logger_frame_struct() {
    let mut logger = RawFlexRayLogger::new().unwrap();

    let frame = FlexRayFrame::channel_a(100, 5, vec![0xAA, 0xBB, 0xCC, 0xDD])
        .with_tx()
        .with_dynamic();
    assert!(logger.log_frame(1000, frame));

    assert_eq!(logger.total_frame_count(), 1);
    assert_eq!(logger.tx_frame_count(), 1);

    let mdf_bytes = logger.finalize().unwrap();
    assert!(!mdf_bytes.is_empty());
}

#[test]
fn raw_logger_test_source_name() {
    let logger = RawFlexRayLogger::with_source_name("Chassis_FR").unwrap();
    assert_eq!(logger.source_name, "Chassis_FR");
}

#[test]
fn test_cluster_name_alias() {
    let logger = RawFlexRayLogger::with_cluster_name("Chassis_FR").unwrap();
    assert_eq!(logger.source_name, "Chassis_FR");
}

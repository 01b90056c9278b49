use mdf4_rs::can::raw_frame::RawFrame;
use mdf4_rs::can::raw_logger::RawCanLogger;
use mdf4_rs::can::FdFlags;

#[test]
fn test_raw_can_logger_basic() {
    let mut logger = RawCanLogger::new().unwrap();

    // Log some frames
    assert!(logger.log(0x100, 1000, &[0x01, 0x02, 0x03, 0x04]));
    assert!(logger.log(0x100, 2000, &[0x05, 0x06, 0x07, 0x08]));
    assert!(logger.log(0x200, 1500, &[0xAA, 0xBB]));

    assert_eq!(logger.frame_count_for_id(0x100), 2);
    assert_eq!(logger.frame_count_for_id(0x200), 1);
    assert_eq!(logger.total_frame_count(), 3);
    assert_eq!(logger.unique_id_count(), 2);

    let mdf_bytes = logger.finalize().unwrap();
    assert!(!mdf_bytes.is_empty());
    assert_eq!(&mdf_bytes[0..3], b"MDF");
}

#[test]
fn test_raw_can_logger_extended_id() {
    let mut logger = RawCanLogger::new().unwrap();

    // Log extended ID (29-bit)
    let extended_id = 0x1234_5678;
    assert!(logger.log_extended(
        extended_id,
        1000,
        &[0x01, 0x02, 0x03, 0x04, 0x05, 0x06, 0x07, 0x08]
    ));

    assert_eq!(logger.frame_count_for_id(extended_id), 1);
    assert!(logger.has_extended_frames());
    assert_eq!(logger.extended_frame_count(), 1);
    assert_eq!(logger.standard_frame_count(), 0);

    let mdf_bytes = logger.finalize().unwrap();
    assert!(!mdf_bytes.is_empty());
}

#[test]
fn test_raw_can_logger_mixed_standard_and_extended() {
    let mut logger = RawCanLogger::new().unwrap();

    // Log standard 11-bit ID
    assert!(logger.log(0x100, 1000, &[0x01, 0x02, 0x03, 0x04]));
    assert!(!logger.has_extended_frames());

    // Log extended 29-bit ID
    assert!(logger.log_extended(0x18FEF100, 2000, &[0xAA, 0xBB, 0xCC, 0xDD]));
    assert!(logger.has_extended_frames());

    assert_eq!(logger.standard_frame_count(), 1);
    assert_eq!(logger.extended_frame_count(), 1);
    assert_eq!(logger.unique_id_count(), 2);

    let mdf_bytes = logger.finalize().unwrap();
    assert!(!mdf_bytes.is_empty());
}

#[test]
fn test_raw_can_logger_extended_fd() {
    let mut logger = RawCanLogger::new().unwrap();

    // Log extended CAN FD frame (29-bit ID with 32 bytes and BRS)
    let fd_data: [u8; 32] = [0x55; 32];
    let flags = FdFlags::new(true, false);
    assert!(logger.log_fd_extended(0x18DA00F1, 1000, &fd_data, flags));

    assert!(logger.has_extended_frames());
    assert!(logger.has_fd_frames());
    assert_eq!(logger.extended_frame_count(), 1);

    let mdf_bytes = logger.finalize().unwrap();
    assert!(!mdf_bytes.is_empty());
}

#[test]
fn test_raw_can_logger_empty() {
    let logger = RawCanLogger::new().unwrap();
    assert_eq!(logger.total_frame_count(), 0);
    assert_eq!(logger.unique_id_count(), 0);

    let mdf_bytes = logger.finalize().unwrap();
    // Even empty file should have MDF header
    assert!(!mdf_bytes.is_empty());
}

#[test]
fn test_raw_can_logger_fd_basic() {
    let mut logger = RawCanLogger::new().unwrap();

    // Log a CAN FD frame with 32 bytes and BRS flag
    let fd_data: [u8; 32] = [0xAA; 32];
    let flags = FdFlags::new(true, false);
    assert!(logger.log_fd(0x100, 1000, &fd_data, flags));

    assert_eq!(logger.frame_count_for_id(0x100), 1);
    assert!(logger.has_fd_frames());

    let mdf_bytes = logger.finalize().unwrap();
    assert!(!mdf_bytes.is_empty());
    assert_eq!(&mdf_bytes[0..3], b"MDF");
}

#[test]
fn test_raw_can_logger_fd_64_bytes() {
    let mut logger = RawCanLogger::new().unwrap();

    // Log a maximum size CAN FD frame (64 bytes)
    let fd_data: [u8; 64] = core::array::from_fn(|i| i as u8);
    let flags = FdFlags::new(true, true); // BRS and ESI
    assert!(logger.log_fd(0x200, 2000, &fd_data, flags));

    assert_eq!(logger.frame_count_for_id(0x200), 1);
    assert!(logger.has_fd_frames());

    let mdf_bytes = logger.finalize().unwrap();
    assert!(!mdf_bytes.is_empty());
}

#[test]
fn test_raw_can_logger_mixed_classic_and_fd() {
    let mut logger = RawCanLogger::new().unwrap();

    // Log classic CAN frame (8 bytes)
    assert!(logger.log(0x100, 1000, &[1, 2, 3, 4, 5, 6, 7, 8]));
    assert!(!logger.has_fd_frames());

    // Log CAN FD frame (24 bytes)
    let fd_data: [u8; 24] = [0xBB; 24];
    assert!(logger.log_fd(0x200, 2000, &fd_data, FdFlags::default()));
    assert!(logger.has_fd_frames());

    // Log another classic CAN frame
    assert!(logger.log(0x100, 3000, &[9, 10, 11, 12]));

    assert_eq!(logger.frame_count_for_id(0x100), 2);
    assert_eq!(logger.frame_count_for_id(0x200), 1);
    assert_eq!(logger.total_frame_count(), 3);

    let mdf_bytes = logger.finalize().unwrap();
    assert!(!mdf_bytes.is_empty());
}

#[test]
fn test_dataframe_format() {
    // Test the CAN_DataFrame byte layout
    let frame = RawFrame::new_classic(1_000_000, 0x123, 4, &[0xAA, 0xBB, 0xCC, 0xDD], false);
    let bytes = frame.to_dataframe_bytes();

    // ID: 0x123 in little-endian
    assert_eq!(bytes[0], 0x23);
    assert_eq!(bytes[1], 0x01);
    assert_eq!(bytes[2], 0x00);
    assert_eq!(bytes[3], 0x00);
    // DLC
    assert_eq!(bytes[4], 4);
    // Data (padded to 8)
    assert_eq!(bytes[5], 0xAA);
    assert_eq!(bytes[6], 0xBB);
    assert_eq!(bytes[7], 0xCC);
    assert_eq!(bytes[8], 0xDD);
    assert_eq!(bytes[9], 0x00); // padding
}

#[test]
fn test_dataframe_format_extended() {
    // Test extended ID with bit 31 set
    let frame = RawFrame::new_classic(1_000_000, 0x18FEF100, 8, &[1, 2, 3, 4, 5, 6, 7, 8], true);
    let bytes = frame.to_dataframe_bytes();

    // ID: 0x18FEF100 | 0x80000000 = 0x98FEF100 in little-endian
    let id = u32::from_le_bytes([bytes[0], bytes[1], bytes[2], bytes[3]]);
    assert_eq!(id, 0x98FEF100);
    assert!(id & 0x8000_0000 != 0); // Extended flag set
}

#[test]
fn test_bus_name() {
    let logger = RawCanLogger::with_bus_name("Vehicle_CAN").unwrap();
    assert_eq!(logger.bus_name, "Vehicle_CAN");
}

#[test]
fn test_source_name_alias() {
    // with_source_name should work the same as with_bus_name
    let logger = RawCanLogger::with_source_name("Vehicle_CAN").unwrap();
    assert_eq!(logger.bus_name, "Vehicle_CAN");
}

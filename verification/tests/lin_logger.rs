use mdf4_rs::lin::{LinFrame, RawLinLogger};

#[test]
fn test_raw_lin_logger_basic() {
    let mut logger = RawLinLogger::new().unwrap();

    assert!(logger.log(0x20, 1000, &[0x01, 0x02, 0x03, 0x04]));
    assert!(logger.log(0x21, 2000, &[0x05, 0x06]));
    assert!(logger.log(0x20, 3000, &[0x07, 0x08, 0x09, 0x0A]));

    assert_eq!(logger.total_frame_count(), 3);
    assert_eq!(logger.frame_count_for_id(0x20), 2);
    assert_eq!(logger.frame_count_for_id(0x21), 1);
    assert_eq!(logger.unique_id_count(), 2);

    let mdf_bytes = logger.finalize().unwrap();
    assert!(!mdf_bytes.is_empty());
    assert_eq!(&mdf_bytes[0..3], b"MDF");
}

#[test]
fn test_raw_lin_logger_tx_rx() {
    let mut logger = RawLinLogger::new().unwrap();

    assert!(logger.log_tx(0x20, 1000, &[0x01, 0x02]));
    assert!(logger.log_rx(0x20, 2000, &[0x03, 0x04]));
    assert!(logger.log_tx(0x21, 3000, &[0x05, 0x06]));

    assert_eq!(logger.tx_frame_count(), 2);
    assert_eq!(logger.rx_frame_count(), 1);

    let mdf_bytes = logger.finalize().unwrap();
    assert!(!mdf_bytes.is_empty());
}

#[test]
fn test_raw_lin_logger_classic_checksum() {
    let mut logger = RawLinLogger::new().unwrap();

    assert!(logger.log_classic(0x20, 1000, &[0x01, 0x02, 0x03, 0x04]));

    assert_eq!(logger.total_frame_count(), 1);
    // Classic checksum should not set enhanced flag
    assert!(!logger.buffer[0].frame.flags.uses_enhanced_checksum());

    let mdf_bytes = logger.finalize().unwrap();
    assert!(!mdf_bytes.is_empty());
}

#[test]
fn test_raw_lin_logger_empty() {
    let logger = RawLinLogger::new().unwrap();
    assert_eq!(logger.total_frame_count(), 0);

    let mdf_bytes = logger.finalize().unwrap();
    assert!(!mdf_bytes.is_empty());
}

#[test]
fn test_raw_lin_logger_frame_struct() {
    let mut logger = RawLinLogger::new().unwrap();

    let frame = LinFrame::with_enhanced_checksum(0x20, &[0x01, 0x02, 0x03, 0x04]).with_tx();
    assert!(logger.log_frame(1000, frame));

    assert_eq!(logger.total_frame_count(), 1);
    assert_eq!(logger.tx_frame_count(), 1);

    let mdf_bytes = logger.finalize().unwrap();
    assert!(!mdf_bytes.is_empty());
}

#[test]
fn test_source_name() {
    let logger = RawLinLogger::with_source_name("Body_LIN").unwrap();
    assert_eq!(logger.source_name, "Body_LIN");
}

#[test]
fn test_bus_name_alias() {
    let logger = RawLinLogger::with_bus_name("Body_LIN").unwrap();
    assert_eq!(logger.source_name, "Body_LIN");
}

use mdf4_rs::ethernet::ethertype;
use mdf4_rs::ethernet::raw_logger::{RawEthFrame, RawEthernetLogger};
use mdf4_rs::ethernet::{EthernetFlags, EthernetFrame, MacAddress, ETH_HEADER_SIZE, MAX_ETHERNET_FRAME};

fn create_test_frame(payload_len: usize) -> Vec<u8> {
    let mut frame = Vec::with_capacity(ETH_HEADER_SIZE + payload_len);
    // Dst MAC (broadcast)
    frame.extend_from_slice(&[0xFF, 0xFF, 0xFF, 0xFF, 0xFF, 0xFF]);
    // Src MAC
    frame.extend_from_slice(&[0x00, 0x11, 0x22, 0x33, 0x44, 0x55]);
    // EtherType (IPv4)
    frame.extend_from_slice(&[0x08, 0x00]);
    // Payload
    frame.extend(core::iter::repeat_n(0xAA, payload_len));
    frame
}

#[test]
fn test_raw_ethernet_logger_basic() {
    let mut logger = RawEthernetLogger::new().unwrap();

    // Log some frames
    let frame1 = create_test_frame(100);
    let frame2 = create_test_frame(200);
    let frame3 = create_test_frame(50);

    assert!(logger.log(1000, &frame1));
    assert!(logger.log(2000, &frame2));
    assert!(logger.log(1500, &frame3));

    assert_eq!(logger.total_frame_count(), 3);
    assert_eq!(logger.standard_frame_count(), 3);
    assert_eq!(logger.jumbo_frame_count(), 0);

    let mdf_bytes = logger.finalize().unwrap();
    assert!(!mdf_bytes.is_empty());
    assert_eq!(&mdf_bytes[0..3], b"MDF");
}

#[test]
fn test_raw_ethernet_logger_tx_rx() {
    let mut logger = RawEthernetLogger::new().unwrap();

    let frame = create_test_frame(100);

    assert!(logger.log_tx(1000, &frame));
    assert!(logger.log_rx(2000, &frame));
    assert!(logger.log_tx(3000, &frame));

    assert_eq!(logger.total_frame_count(), 3);
    assert_eq!(logger.tx_frame_count(), 2);
    assert_eq!(logger.rx_frame_count(), 1);

    let mdf_bytes = logger.finalize().unwrap();
    assert!(!mdf_bytes.is_empty());
}

#[test]
fn test_raw_ethernet_logger_empty() {
    let logger = RawEthernetLogger::new().unwrap();
    assert_eq!(logger.total_frame_count(), 0);

    let mdf_bytes = logger.finalize().unwrap();
    // Even empty file should have MDF header
    assert!(!mdf_bytes.is_empty());
}

#[test]
fn test_raw_ethernet_logger_short_frame() {
    let mut logger = RawEthernetLogger::new().unwrap();

    // Frame too short (less than 14 bytes header)
    let short_frame = [0u8; 10];
    assert!(!logger.log(1000, &short_frame));

    assert_eq!(logger.total_frame_count(), 0);
}

#[test]
fn test_raw_ethernet_logger_frame_struct() {
    let mut logger = RawEthernetLogger::new().unwrap();

    let frame = EthernetFrame::new(
        MacAddress::broadcast(),
        MacAddress::new([0x00, 0x11, 0x22, 0x33, 0x44, 0x55]),
        ethertype::IPV4,
        vec![0x45, 0x00, 0x00, 0x28, 0x00, 0x00],
    );

    assert!(logger.log_frame(1000, frame));
    assert_eq!(logger.total_frame_count(), 1);

    let mdf_bytes = logger.finalize().unwrap();
    assert!(!mdf_bytes.is_empty());
}

#[test]
fn test_raw_ethernet_logger_components() {
    let mut logger = RawEthernetLogger::new().unwrap();

    assert!(logger.log_components(
        1000,
        MacAddress::broadcast(),
        MacAddress::new([0x00, 0x11, 0x22, 0x33, 0x44, 0x55]),
        ethertype::ARP,
        &[0x00, 0x01, 0x08, 0x00, 0x06, 0x04],
    ));

    assert_eq!(logger.total_frame_count(), 1);

    let mdf_bytes = logger.finalize().unwrap();
    assert!(!mdf_bytes.is_empty());
}

#[test]
fn ethernet_test_source_name() {
    let logger = RawEthernetLogger::with_source_name("eth0").unwrap();
    assert_eq!(logger.source_name, "eth0");
}

#[test]
fn test_interface_name_alias() {
    let logger = RawEthernetLogger::with_interface_name("eth0").unwrap();
    assert_eq!(logger.source_name, "eth0");
}

#[test]
fn test_frame_bytes_format() {
    let frame_data = create_test_frame(10);
    let raw_frame = RawEthFrame::new(1_000_000, frame_data.clone(), EthernetFlags::tx());

    let bytes = raw_frame.to_frame_bytes(MAX_ETHERNET_FRAME);

    // Check flags byte
    assert_eq!(bytes[0], EthernetFlags::TX);
    // Check length (little-endian)
    let len = u16::from_le_bytes([bytes[1], bytes[2]]);
    assert_eq!(len, frame_data.len() as u16);
    // Check frame data starts at byte 3
    assert_eq!(&bytes[3..3 + frame_data.len()], &frame_data[..]);
}

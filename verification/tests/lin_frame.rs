use mdf4_rs::lin::{ChecksumType, LinFlags, LinFrame};

#[test]
fn test_lin_frame_basic() {
    let frame = LinFrame::new(0x20, &[0x01, 0x02, 0x03, 0x04]);
    assert_eq!(frame.id, 0x20);
    assert_eq!(frame.data_len, 4);
    assert_eq!(frame.data(), &[0x01, 0x02, 0x03, 0x04]);
}

#[test]
fn test_lin_frame_id_masking() {
    // ID should be masked to 6 bits (0-63)
    let frame = LinFrame::new(0xFF, &[0x01]);
    assert_eq!(frame.id, 0x3F);
}

#[test]
fn test_lin_frame_data_truncation() {
    // Data should be truncated to 8 bytes
    let data = [0x01, 0x02, 0x03, 0x04, 0x05, 0x06, 0x07, 0x08, 0x09, 0x0A];
    let frame = LinFrame::new(0x10, &data);
    assert_eq!(frame.data_len, 8);
}

#[test]
fn test_lin_flags() {
    let flags = LinFlags::tx();
    assert!(flags.is_tx());
    assert!(!flags.is_rx());

    let flags = LinFlags::rx();
    assert!(flags.is_rx());
    assert!(!flags.is_tx());

    let flags = LinFlags::from_byte(LinFlags::CHECKSUM_ERROR | LinFlags::NO_RESPONSE);
    assert!(flags.has_checksum_error());
    assert!(flags.has_no_response());
    assert!(flags.has_error());
}

#[test]
fn test_protected_id() {
    // Test known protected ID values
    let frame = LinFrame::new(0x00, &[]);
    assert_eq!(frame.protected_id() & 0x3F, 0x00);

    let frame = LinFrame::new(0x3C, &[]); // Diagnostic request ID
    let pid = frame.protected_id();
    assert_eq!(pid & 0x3F, 0x3C);
}

#[test]
fn test_classic_checksum() {
    let frame = LinFrame::new(0x20, &[0x01, 0x02, 0x03, 0x04]);
    let checksum = frame.calculate_classic_checksum();
    // Classic checksum = ~(0x01 + 0x02 + 0x03 + 0x04) = ~0x0A = 0xF5
    assert_eq!(checksum, 0xF5);
}

#[test]
fn test_frame_roundtrip() {
    let original = LinFrame::with_enhanced_checksum(0x20, &[0x01, 0x02, 0x03, 0x04]).with_tx();
    let bytes = original.to_bytes();
    let parsed = LinFrame::from_bytes(&bytes).unwrap();

    assert_eq!(parsed.id, original.id);
    assert_eq!(parsed.data_len, original.data_len);
    assert_eq!(parsed.data(), original.data());
    assert_eq!(parsed.checksum, original.checksum);
    assert!(parsed.flags.is_tx());
}

#[test]
fn test_checksum_types() {
    assert_eq!(ChecksumType::from_u8(0), ChecksumType::Classic);
    assert_eq!(ChecksumType::from_u8(1), ChecksumType::Enhanced);
    assert_eq!(ChecksumType::from_u8(99), ChecksumType::Classic);
}

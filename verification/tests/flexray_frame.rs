use mdf4_rs::flexray::{FlexRayChannel, FlexRayFlags, FlexRayFrame, MAX_CYCLE_COUNT, MAX_SLOT_ID};

#[test]
fn test_flexray_frame_basic() {
    let frame = FlexRayFrame::new(100, 5, FlexRayChannel::A, vec![0x01, 0x02, 0x03, 0x04]);
    assert_eq!(frame.slot_id, 100);
    assert_eq!(frame.cycle, 5);
    assert_eq!(frame.channel, FlexRayChannel::A);
    assert_eq!(frame.payload(), &[0x01, 0x02, 0x03, 0x04]);
}

#[test]
fn test_flexray_frame_slot_id_clamping() {
    let frame = FlexRayFrame::new(3000, 0, FlexRayChannel::A, vec![]);
    assert_eq!(frame.slot_id, MAX_SLOT_ID);
}

#[test]
fn test_flexray_frame_cycle_masking() {
    let frame = FlexRayFrame::new(1, 100, FlexRayChannel::A, vec![]);
    assert_eq!(frame.cycle, 100 & MAX_CYCLE_COUNT);
}

#[test]
fn test_flexray_flags() {
    let flags = FlexRayFlags::tx();
    assert!(flags.is_tx());
    assert!(flags.is_valid());

    let flags = FlexRayFlags::rx();
    assert!(flags.is_rx());
    assert!(flags.is_valid());

    let flags = FlexRayFlags::from_u16(
        FlexRayFlags::STARTUP | FlexRayFlags::SYNC | FlexRayFlags::VALID,
    );
    assert!(flags.is_startup());
    assert!(flags.is_sync());
    assert!(flags.is_valid());
}

#[test]
fn test_flexray_frame_roundtrip() {
    let original = FlexRayFrame::new(100, 10, FlexRayChannel::B, vec![0xAA, 0xBB, 0xCC, 0xDD])
        .with_tx()
        .with_dynamic();
    let bytes = original.to_bytes();
    let parsed = FlexRayFrame::from_bytes(&bytes).unwrap();

    assert_eq!(parsed.slot_id, original.slot_id);
    assert_eq!(parsed.cycle, original.cycle);
    assert_eq!(parsed.channel, original.channel);
    assert!(parsed.flags.is_tx());
    assert!(parsed.flags.is_dynamic());
    assert_eq!(parsed.payload(), original.payload());
}

#[test]
fn test_flexray_channel() {
    assert_eq!(FlexRayChannel::from_u8(0), FlexRayChannel::A);
    assert_eq!(FlexRayChannel::from_u8(1), FlexRayChannel::B);
    assert_eq!(FlexRayChannel::from_u8(2), FlexRayChannel::AB);
    assert_eq!(FlexRayChannel::from_u8(99), FlexRayChannel::A);
}

#[test]
fn test_null_frame() {
    let frame = FlexRayFrame::null_frame(50, 0, FlexRayChannel::A);
    assert!(frame.flags.is_null_frame());
    assert!(frame.payload.is_empty());
}

#[test]
fn test_startup_frame() {
    let frame = FlexRayFrame::startup(1, 0, FlexRayChannel::AB, vec![0x00; 8]);
    assert!(frame.flags.is_startup());
    assert!(frame.flags.is_sync());
}

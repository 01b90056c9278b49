use mdf4_rs::can::{dlc_to_len, len_to_dlc, FdFlags};

#[test]
fn test_dlc_to_len() {
    assert_eq!(dlc_to_len(0), 0);
    assert_eq!(dlc_to_len(8), 8);
    assert_eq!(dlc_to_len(9), 12);
    assert_eq!(dlc_to_len(10), 16);
    assert_eq!(dlc_to_len(11), 20);
    assert_eq!(dlc_to_len(12), 24);
    assert_eq!(dlc_to_len(13), 32);
    assert_eq!(dlc_to_len(14), 48);
    assert_eq!(dlc_to_len(15), 64);
}

#[test]
fn test_len_to_dlc() {
    assert_eq!(len_to_dlc(0), 0);
    assert_eq!(len_to_dlc(8), 8);
    assert_eq!(len_to_dlc(12), 9);
    assert_eq!(len_to_dlc(16), 10);
    assert_eq!(len_to_dlc(20), 11);
    assert_eq!(len_to_dlc(24), 12);
    assert_eq!(len_to_dlc(32), 13);
    assert_eq!(len_to_dlc(48), 14);
    assert_eq!(len_to_dlc(64), 15);
    // In-between values
    assert_eq!(len_to_dlc(10), 9); // 10 bytes needs DLC 9 (12 bytes)
    assert_eq!(len_to_dlc(50), 15); // 50 bytes needs DLC 15 (64 bytes)
}

#[test]
fn fd_test_fd_flags() {
    let flags = FdFlags::new(true, false);
    assert!(flags.brs());
    assert!(!flags.esi());
    assert_eq!(flags.to_byte(), 0x01);

    let flags = FdFlags::new(false, true);
    assert!(!flags.brs());
    assert!(flags.esi());
    assert_eq!(flags.to_byte(), 0x02);

    let flags = FdFlags::new(true, true);
    assert_eq!(flags.to_byte(), 0x03);

    let flags = FdFlags::from_byte(0x03);
    assert!(flags.brs());
    assert!(flags.esi());
}

#[test]
fn raw_logger_test_fd_flags() {
    let flags = FdFlags::new(true, false);
    assert!(flags.brs());
    assert!(!flags.esi());

    let flags = FdFlags::new(false, true);
    assert!(!flags.brs());
    assert!(flags.esi());

    let flags = FdFlags::from_byte(0x03);
    assert!(flags.brs());
    assert!(flags.esi());
    assert_eq!(flags.to_byte(), 0x03);
}

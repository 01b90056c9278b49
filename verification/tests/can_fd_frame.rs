use embedded_can::{ExtendedId, StandardId};
use mdf4_rs::can::{CanId, FdFlags, FdFrame, RawCanLogger, SimpleFdFrame};

fn can_id<I: Into<embedded_can::Id>>(id: I) -> CanId {
    CanId::from_id(id.into())
}

#[test]
fn test_simple_fd_frame_classic() {
    let id = StandardId::new(0x100).unwrap();
    let frame = SimpleFdFrame::new_classic(can_id(id), &[1, 2, 3, 4, 5, 6, 7, 8]).unwrap();

    assert!(!frame.is_fd());
    assert_eq!(frame.data(), &[1, 2, 3, 4, 5, 6, 7, 8]);
    assert!(!frame.fd_flags().brs());
    assert!(!frame.fd_flags().esi());
}

#[test]
fn test_simple_fd_frame_fd() {
    let id = StandardId::new(0x100).unwrap();
    let data = [0xAAu8; 32];
    let flags = FdFlags::new(true, false);
    let frame = SimpleFdFrame::new_fd_frame(can_id(id), &data, flags).unwrap();

    assert!(frame.is_fd());
    assert_eq!(frame.data().len(), 32);
    assert!(frame.fd_flags().brs());
    assert!(!frame.fd_flags().esi());
}

#[test]
fn test_simple_fd_frame_max_size() {
    let id = StandardId::new(0x100).unwrap();
    let data = [0xBBu8; 64];
    let frame = SimpleFdFrame::new_fd_frame(can_id(id), &data, FdFlags::default()).unwrap();

    assert!(frame.is_fd());
    assert_eq!(frame.data().len(), 64);
}

#[test]
fn test_simple_fd_frame_too_large() {
    let id = StandardId::new(0x100).unwrap();
    let data = [0u8; 65]; // Too large
    assert!(SimpleFdFrame::new_fd_frame(can_id(id), &data, FdFlags::default()).is_none());
}

#[test]
fn simple_fd_frame_dlc_ids_and_remote() {
    let frame = SimpleFdFrame::new_fd_frame(can_id(ExtendedId::new(0x18DA00F1).unwrap()), &[0x11; 20], FdFlags::new(false, true)).unwrap();
    assert_eq!(frame.dlc(), 11);
    assert_eq!(FdFrame::data_len(&frame), 20);
    assert!(frame.is_extended());
    assert!(!FdFrame::is_standard(&frame));
    assert!(!frame.is_remote_frame());
    assert_eq!(frame.classic_dlc(), 8);
    assert_eq!(frame.classic_data(), vec![0x11; 8]);

    let remote = SimpleFdFrame::new_remote(can_id(StandardId::new(0x7FF).unwrap()), 3).unwrap();
    assert_eq!(remote.data(), &[0, 0, 0]);
    assert!(SimpleFdFrame::new_remote(can_id(StandardId::new(1).unwrap()), 9).is_none());
    assert!(SimpleFdFrame::new_classic(can_id(StandardId::new(1).unwrap()), &[0; 9]).is_none());
}

#[test]
fn log_fd_frame_dispatches_on_kind_and_id() {
    let mut logger = RawCanLogger::new().unwrap();
    let fd = SimpleFdFrame::new_fd_frame(can_id(ExtendedId::new(0x18DA00F1).unwrap()), &[0x55; 12], FdFlags::new(true, false)).unwrap();
    let classic = SimpleFdFrame::new_classic(can_id(StandardId::new(0x123).unwrap()), &[1, 2]).unwrap();
    assert!(logger.log_fd_frame(10, &fd));
    assert!(logger.log_fd_frame(20, &classic));
    assert!(logger.has_fd_frames());
    assert!(logger.has_extended_frames());
    assert_eq!(logger.extended_frame_count(), 1);
    assert_eq!(logger.standard_frame_count(), 1);
    assert_eq!(logger.frame_count_for_id(0x18DA00F1), 1);
    assert_eq!(logger.frame_count_for_id(0x123), 1);
    assert_eq!(logger.buffer[0].dlc, 9);
    assert!(logger.buffer[0].is_fd);
    assert_eq!(logger.buffer[1].dlc, 2);
    assert_eq!((logger.buffer[0].can_id, logger.buffer[0].is_extended), (0x18DA00F1, true));
    assert_eq!((logger.buffer[1].can_id, logger.buffer[1].is_extended), (0x123, false));
    assert_eq!(logger.buffer[0].data, vec![0x55; 12]);
    assert!(logger.buffer[0].fd_flags.brs());
    assert_eq!(logger.buffer[1].data, vec![1, 2]);
}

#[test]
fn frames_keep_their_identifier() {
    let frame = SimpleFdFrame::new_classic(can_id(StandardId::new(0x100).unwrap()), &[1]).unwrap();
    assert_eq!((frame.id().is_extended(), frame.id().raw()), (false, 0x100));
    assert!(!frame.is_extended());
    let frame = SimpleFdFrame::new_fd_frame(can_id(ExtendedId::new(0x18DA00F1).unwrap()), &[2; 12], FdFlags::default()).unwrap();
    assert_eq!((frame.id().is_extended(), frame.id().raw()), (true, 0x18DA00F1));
    let frame = <SimpleFdFrame as FdFrame>::new_fd(CanId::standard(0x7FF).unwrap(), &[3], FdFlags::default()).unwrap();
    assert_eq!(FdFrame::id(&frame), CanId::standard(0x7FF).unwrap());
    assert!(FdFrame::is_standard(&frame));
}

#[test]
fn can_ids_keep_to_their_ranges() {
    assert!(CanId::standard(0x800).is_none());
    assert!(CanId::extended(0x2000_0000).is_none());
    let id = CanId::extended(0x1FFF_FFFF).unwrap();
    assert!(id.is_extended());
    assert_eq!(id.raw(), 0x1FFF_FFFF);
    assert_eq!(can_id(StandardId::new(0x7FF).unwrap()), CanId::standard(0x7FF).unwrap());
}

//! LIN bus integration: the ASAM `LIN_Frame` layout, checksums, protected IDs and flags.

pub mod frame;

pub use frame::{
    ChecksumType, LinFlags, LinFrame, LinFrameView, ScheduleEntryType, MAX_LIN_DATA_LEN,
    MAX_LIN_ID,
};
pub mod raw_logger;

pub use raw_logger::RawLinLogger;

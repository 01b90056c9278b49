//! CAN bus support: CAN FD length codes and flags, timestamped frames, and raw CAN
//! frame logging.

pub mod dbc_config;
pub mod fd;
pub mod fd_frame;
pub mod load;
pub mod raw_frame;
pub mod raw_logger;
pub mod read_back;
pub mod timestamped_frame;

pub use fd::{dlc_to_len, len_to_dlc, FdFlags, MAX_FD_DATA_LEN};
pub use dbc_config::{value_descriptions_to_mapping, CanDbcLoggerConfig, OverlayStatistics};
pub use fd_frame::{CanId, FdFrame, SimpleFdFrame};
pub use raw_logger::RawCanLogger;
pub use timestamped_frame::TimestampedFrame;

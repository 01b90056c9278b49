//! FlexRay bus integration: the ASAM `FLEXRAY_Frame` layout, channels, flags and a logger.

pub mod frame;


pub mod raw_logger;

pub use raw_logger::RawFlexRayLogger;
pub use frame::{
    FlexRayChannel, FlexRayFlags, FlexRayFrame, FlexRayFrameView, FLEXRAY_HEADER_SIZE,
    MAX_CYCLE_COUNT, MAX_FLEXRAY_PAYLOAD, MAX_SLOT_ID,
};


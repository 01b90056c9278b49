//! Reading and writing pieces of ASAM MDF 4 measurement files, with bus logging
//! for CAN, Ethernet, LIN and FlexRay, verified with Verus.
#![allow(unused_imports)]

pub mod bits;
pub mod bytes;
pub mod can;
pub mod ethernet;
pub mod flexray;
pub mod lin;
pub mod error;
pub mod writer;
pub mod blocks;
pub mod text;
pub mod index;
pub mod reader;
pub mod scan;
pub mod values;
pub mod channel_values;
pub mod log_index;
pub mod bus_frame;
pub mod merge;
pub mod chain_laws;

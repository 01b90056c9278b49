//! Frames that a bus logger stores as the bytes of one data channel value.

use vstd::prelude::*;
use crate::ethernet::frame::{spec_eth_frame_bytes, EthernetFrame, ETH_HEADER_SIZE};
use crate::flexray::frame::{spec_flexray_bytes, FlexRayFrame, FLEXRAY_HEADER_SIZE};
use crate::lin::frame::{spec_lin_bytes, LinFrame};

verus! {

/// A bus frame: its bytes as an MDF data channel value, and its size there.
pub trait BusFrame {
    /// The bytes of the frame.
    spec fn spec_mdf_bytes(&self) -> Seq<u8>;

    /// The size the frame takes.
    spec fn spec_mdf_size(&self) -> int;

    /// The bytes of the frame as an MDF data channel value.
    fn to_mdf_bytes(&self) -> (r: Vec<u8>)
        ensures
            r@ == self.spec_mdf_bytes(),
    ;

    /// The size the frame takes in a record.
    fn mdf_size(&self) -> (r: usize)
        requires
            self.spec_mdf_size() <= usize::MAX,
        ensures
            r == self.spec_mdf_size(),
    ;
}

impl BusFrame for EthernetFrame {
    /// The `ETH_Frame` bytes.
    open spec fn spec_mdf_bytes(&self) -> Seq<u8> {
        spec_eth_frame_bytes(self@)
    }

    /// The `ETH_Frame` header (4 bytes), the Ethernet header and the payload.
    open spec fn spec_mdf_size(&self) -> int {
        4 + ETH_HEADER_SIZE + self.payload@.len()
    }

    fn to_mdf_bytes(&self) -> (r: Vec<u8>) {
        self.to_bytes()
    }

    fn mdf_size(&self) -> (r: usize) {
        4 + ETH_HEADER_SIZE + self.payload.len()
    }
}

impl BusFrame for FlexRayFrame {
    /// The `FLEXRAY_Frame` bytes.
    open spec fn spec_mdf_bytes(&self) -> Seq<u8> {
        spec_flexray_bytes(self@)
    }

    /// The FlexRay header and the payload.
    open spec fn spec_mdf_size(&self) -> int {
        FLEXRAY_HEADER_SIZE + self.payload@.len()
    }

    fn to_mdf_bytes(&self) -> (r: Vec<u8>) {
        self.to_bytes()
    }

    fn mdf_size(&self) -> (r: usize) {
        FLEXRAY_HEADER_SIZE + self.payload.len()
    }
}

impl BusFrame for LinFrame {
    /// The `LIN_Frame` bytes.
    open spec fn spec_mdf_bytes(&self) -> Seq<u8> {
        spec_lin_bytes(self@)
    }

    /// A LIN frame always takes 12 bytes: ID, length, flags, checksum, 8 data bytes.
    open spec fn spec_mdf_size(&self) -> int {
        12
    }

    fn to_mdf_bytes(&self) -> (r: Vec<u8>) {
        self.to_bytes()
    }

    fn mdf_size(&self) -> (r: usize) {
        12
    }
}

} // verus!

//! CAN FD (Flexible Data-rate): data length codes and the BRS/ESI flags.

use vstd::prelude::*;

verus! {

/// Maximum CAN FD payload in bytes.
pub const MAX_FD_DATA_LEN: usize = 64;

/// The payload length that a CAN FD data length code (DLC) stands for.
/// Codes above 15 are invalid and are read as 64.
pub open spec fn spec_dlc_to_len(dlc: u8) -> usize {
    if dlc <= 8 {
        dlc as usize
    } else if dlc == 9 {
        12
    } else if dlc == 10 {
        16
    } else if dlc == 11 {
        20
    } else if dlc == 12 {
        24
    } else if dlc == 13 {
        32
    } else if dlc == 14 {
        48
    } else {
        64
    }
}

/// The smallest data length code whose payload length holds `len` bytes
/// (15 for every length above 48).
pub open spec fn spec_len_to_dlc(len: usize) -> u8 {
    if len <= 8 {
        len as u8
    } else if len <= 12 {
        9
    } else if len <= 16 {
        10
    } else if len <= 20 {
        11
    } else if len <= 24 {
        12
    } else if len <= 32 {
        13
    } else if len <= 48 {
        14
    } else {
        15
    }
}

/// Converts a DLC (Data Length Code) to the actual data length in bytes.
pub fn dlc_to_len(dlc: u8) -> (r: usize)
    ensures
        r == spec_dlc_to_len(dlc),
{
    match dlc {
        0..=8 => dlc as usize,
        9 => 12,
        10 => 16,
        11 => 20,
        12 => 24,
        13 => 32,
        14 => 48,
        15 => 64,
        _ => 64,
    }
}

/// Converts a data length in bytes to the smallest DLC that can hold it.
pub fn len_to_dlc(len: usize) -> (r: u8)
    ensures
        r == spec_len_to_dlc(len),
{
    match len {
        0..=8 => len as u8,
        9..=12 => 9,
        13..=16 => 10,
        17..=20 => 11,
        21..=24 => 12,
        25..=32 => 13,
        33..=48 => 14,
        _ => 15,
    }
}

/// For every payload of at most 64 bytes, the code that `len_to_dlc` picks stands for a
/// length that holds the payload, and no smaller code does; every valid code (0 to 15)
/// survives the round trip through its length.
pub proof fn lemma_dlc_len_galois(len: usize, dlc: u8)
    ensures
        len <= MAX_FD_DATA_LEN ==> spec_dlc_to_len(spec_len_to_dlc(len)) >= len,
        len <= MAX_FD_DATA_LEN && dlc < spec_len_to_dlc(len) ==> spec_dlc_to_len(dlc) < len,
        spec_len_to_dlc(len) <= 15,
        spec_dlc_to_len(dlc) <= MAX_FD_DATA_LEN,
        dlc <= 15 ==> spec_len_to_dlc(spec_dlc_to_len(dlc)) == dlc,
{
}

/// CAN FD flags: Bit Rate Switch (BRS) and Error State Indicator (ESI).
#[derive(Debug, Clone, Copy, Default, PartialEq, Eq)]
pub struct FdFlags {
    brs: bool,
    esi: bool,
}

impl FdFlags {
    /// Whether the bit rate switch is set.
    pub closed spec fn spec_brs(self) -> bool {
        self.brs
    }

    /// Whether the error state indicator is set.
    pub closed spec fn spec_esi(self) -> bool {
        self.esi
    }

    /// The byte encoding: bit 0 holds BRS and bit 1 holds ESI.
    pub closed spec fn spec_to_byte(self) -> u8 {
        (if self.brs { 1u8 } else { 0u8 }) | (if self.esi { 2u8 } else { 0u8 })
    }

    /// The flags that a byte stands for.
    pub closed spec fn spec_from_byte(byte: u8) -> Self {
        FdFlags { brs: byte & 0x01 != 0, esi: byte & 0x02 != 0 }
    }

    /// Create new FD flags.
    pub fn new(brs: bool, esi: bool) -> (r: Self)
        ensures
            r.spec_brs() == brs,
            r.spec_esi() == esi,
    {
        Self { brs, esi }
    }

    /// Create from a raw byte (bit 0 = BRS, bit 1 = ESI; other bits are ignored).
    pub fn from_byte(byte: u8) -> (r: Self)
        ensures
            r == Self::spec_from_byte(byte),
            r.spec_brs() == (byte & 0x01 != 0),
            r.spec_esi() == (byte & 0x02 != 0),
    {
        Self { brs: byte & 0x01 != 0, esi: byte & 0x02 != 0 }
    }

    /// Convert to a raw byte.
    pub fn to_byte(self) -> (r: u8)
        ensures
            r == self.spec_to_byte(),
    {
        let b: u8 = if self.brs { 1 } else { 0 };
        let e: u8 = if self.esi { 2 } else { 0 };
        b | e
    }

    /// Check if the Bit Rate Switch is set.
    pub fn brs(&self) -> (r: bool)
        ensures
            r == self.spec_brs(),
    {
        self.brs
    }

    /// Check if the Error State Indicator is set.
    pub fn esi(&self) -> (r: bool)
        ensures
            r == self.spec_esi(),
    {
        self.esi
    }
}

/// Encoding flags as a byte and reading them back gives the same flags; reading a byte
/// and encoding the flags keeps exactly its two low bits.
pub proof fn lemma_fd_flags_roundtrip(flags: FdFlags, byte: u8)
    ensures
        (flags.spec_to_byte() & 0x01 != 0) == flags.spec_brs(),
        (flags.spec_to_byte() & 0x02 != 0) == flags.spec_esi(),
        flags.spec_to_byte() <= 3,
        FdFlags::spec_from_byte(flags.spec_to_byte()) == flags,
        FdFlags::spec_from_byte(byte).spec_to_byte() == byte & 0x03,
{
    let b = flags.brs;
    let e = flags.esi;
    assert(((if b { 1u8 } else { 0u8 }) | (if e { 2u8 } else { 0u8 })) & 0x01 != 0 <==> b)
        by (bit_vector);
    assert(((if b { 1u8 } else { 0u8 }) | (if e { 2u8 } else { 0u8 })) & 0x02 != 0 <==> e)
        by (bit_vector);
    assert(((if b { 1u8 } else { 0u8 }) | (if e { 2u8 } else { 0u8 })) <= 3) by (bit_vector);
    assert(((if byte & 0x01 != 0 { 1u8 } else { 0u8 }) | (if byte & 0x02 != 0 {
        2u8
    } else {
        0u8
    })) == byte & 0x03) by (bit_vector);
}

} // verus!

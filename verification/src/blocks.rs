//! MDF 4 block vocabulary: channel data types, and reading block headers and links.

use vstd::prelude::*;

verus! {

/// The data type of a channel's raw value (the `cn_data_type` field of a CN block).
#[derive(Debug, Clone, Copy, PartialEq, Eq, Structural)]
pub enum DataType {
    /// Unsigned integer, little-endian (0).
    UnsignedIntegerLE,
    /// Unsigned integer, big-endian (1).
    UnsignedIntegerBE,
    /// Signed integer (two's complement), little-endian (2).
    SignedIntegerLE,
    /// Signed integer (two's complement), big-endian (3).
    SignedIntegerBE,
    /// IEEE 754 floating point, little-endian (4).
    FloatLE,
    /// IEEE 754 floating point, big-endian (5).
    FloatBE,
    /// String, ISO-8859-1 (6).
    StringLatin1,
    /// String, UTF-8 (7).
    StringUtf8,
    /// String, UTF-16 little-endian (8).
    StringUtf16LE,
    /// String, UTF-16 big-endian (9).
    StringUtf16BE,
    /// Byte array (10).
    ByteArray,
    /// MIME sample (11).
    MimeSample,
    /// MIME stream (12).
    MimeStream,
    /// CANopen date (13).
    CanOpenDate,
    /// CANopen time (14).
    CanOpenTime,
    /// Complex number, little-endian (15).
    ComplexLE,
    /// Complex number, big-endian (16).
    ComplexBE,
    /// A code that MDF 4.1 does not define.
    Unknown(u8),
}

impl DataType {
    /// The data type a `cn_data_type` code stands for.
    pub open spec fn spec_from_u8(v: u8) -> DataType {
        if v == 0 {
            DataType::UnsignedIntegerLE
        } else if v == 1 {
            DataType::UnsignedIntegerBE
        } else if v == 2 {
            DataType::SignedIntegerLE
        } else if v == 3 {
            DataType::SignedIntegerBE
        } else if v == 4 {
            DataType::FloatLE
        } else if v == 5 {
            DataType::FloatBE
        } else if v == 6 {
            DataType::StringLatin1
        } else if v == 7 {
            DataType::StringUtf8
        } else if v == 8 {
            DataType::StringUtf16LE
        } else if v == 9 {
            DataType::StringUtf16BE
        } else if v == 10 {
            DataType::ByteArray
        } else if v == 11 {
            DataType::MimeSample
        } else if v == 12 {
            DataType::MimeStream
        } else if v == 13 {
            DataType::CanOpenDate
        } else if v == 14 {
            DataType::CanOpenTime
        } else if v == 15 {
            DataType::ComplexLE
        } else if v == 16 {
            DataType::ComplexBE
        } else {
            DataType::Unknown(v)
        }
    }

    /// The `cn_data_type` code of a data type.
    pub open spec fn spec_to_u8(self) -> u8 {
        match self {
            DataType::UnsignedIntegerLE => 0,
            DataType::UnsignedIntegerBE => 1,
            DataType::SignedIntegerLE => 2,
            DataType::SignedIntegerBE => 3,
            DataType::FloatLE => 4,
            DataType::FloatBE => 5,
            DataType::StringLatin1 => 6,
            DataType::StringUtf8 => 7,
            DataType::StringUtf16LE => 8,
            DataType::StringUtf16BE => 9,
            DataType::ByteArray => 10,
            DataType::MimeSample => 11,
            DataType::MimeStream => 12,
            DataType::CanOpenDate => 13,
            DataType::CanOpenTime => 14,
            DataType::ComplexLE => 15,
            DataType::ComplexBE => 16,
            DataType::Unknown(v) => v,
        }
    }

    /// Whether values of this type are byte sequences read whole (strings, byte arrays,
    /// MIME samples and streams) rather than bit fields.
    pub open spec fn spec_is_byte_sequence(self) -> bool {
        match self {
            DataType::StringLatin1 | DataType::StringUtf8 | DataType::StringUtf16LE
            | DataType::StringUtf16BE | DataType::ByteArray | DataType::MimeSample
            | DataType::MimeStream => true,
            _ => false,
        }
    }

    /// The data type a `cn_data_type` code stands for.
    pub fn from_u8(v: u8) -> (r: DataType)
        ensures
            r == Self::spec_from_u8(v),
    {
        match v {
            0 => DataType::UnsignedIntegerLE,
            1 => DataType::UnsignedIntegerBE,
            2 => DataType::SignedIntegerLE,
            3 => DataType::SignedIntegerBE,
            4 => DataType::FloatLE,
            5 => DataType::FloatBE,
            6 => DataType::StringLatin1,
            7 => DataType::StringUtf8,
            8 => DataType::StringUtf16LE,
            9 => DataType::StringUtf16BE,
            10 => DataType::ByteArray,
            11 => DataType::MimeSample,
            12 => DataType::MimeStream,
            13 => DataType::CanOpenDate,
            14 => DataType::CanOpenTime,
            15 => DataType::ComplexLE,
            16 => DataType::ComplexBE,
            _ => DataType::Unknown(v),
        }
    }

    /// The `cn_data_type` code of a data type.
    pub fn to_u8(self) -> (r: u8)
        ensures
            r == self.spec_to_u8(),
    {
        match self {
            DataType::UnsignedIntegerLE => 0,
            DataType::UnsignedIntegerBE => 1,
            DataType::SignedIntegerLE => 2,
            DataType::SignedIntegerBE => 3,
            DataType::FloatLE => 4,
            DataType::FloatBE => 5,
            DataType::StringLatin1 => 6,
            DataType::StringUtf8 => 7,
            DataType::StringUtf16LE => 8,
            DataType::StringUtf16BE => 9,
            DataType::ByteArray => 10,
            DataType::MimeSample => 11,
            DataType::MimeStream => 12,
            DataType::CanOpenDate => 13,
            DataType::CanOpenTime => 14,
            DataType::ComplexLE => 15,
            DataType::ComplexBE => 16,
            DataType::Unknown(v) => v,
        }
    }

    /// Whether values of this type are byte sequences read whole.
    pub fn is_byte_sequence(self) -> (r: bool)
        ensures
            r == self.spec_is_byte_sequence(),
    {
        match self {
            DataType::StringLatin1 | DataType::StringUtf8 | DataType::StringUtf16LE
            | DataType::StringUtf16BE | DataType::ByteArray | DataType::MimeSample
            | DataType::MimeStream => true,
            _ => false,
        }
    }
}

/// A code read as a data type and written back is the code.
pub proof fn lemma_data_type_code_roundtrip(v: u8, t: DataType)
    ensures
        DataType::spec_from_u8(v).spec_to_u8() == v,
        (t !is Unknown || t->Unknown_0 > 16) ==> DataType::spec_from_u8(t.spec_to_u8()) == t,
{
}

} // verus!

//! Channel values decoded from raw bytes: integers, floating-point values (as their
//! IEEE 754 bits), texts and byte arrays.

use vstd::prelude::*;
use crate::blocks::DataType;
use crate::bytes::{copy_range, from_le16, from_le32, from_le64, read_le16};
use crate::reader::{read_u32_at, read_u64_at, u32_at, u64_at};
use crate::text::{spec_utf8_lossy, utf8_lossy};
use crate::index::IndexedChannel;

verus! {

/// A decoded channel value. Floating-point values are carried as their IEEE 754 bits.
#[derive(Debug, Clone, PartialEq)]
pub enum DecodedValue {
    /// An unsigned integer.
    UnsignedInteger(u64),
    /// A signed integer.
    SignedInteger(i64),
    /// The bits of an IEEE 754 single-precision value.
    Float32Bits(u32),
    /// The bits of an IEEE 754 double-precision value.
    Float64Bits(u64),
    /// A text.
    String(String),
    /// Bytes taken as they are.
    ByteArray(Vec<u8>),
}

/// What a decoded value holds, with texts and bytes as sequences.
pub enum DecodedValueView {
    UnsignedInteger(u64),
    SignedInteger(i64),
    Float32Bits(u32),
    Float64Bits(u64),
    String(Seq<char>),
    ByteArray(Seq<u8>),
}

impl View for DecodedValue {
    type V = DecodedValueView;

    open spec fn view(&self) -> DecodedValueView {
        match self {
            DecodedValue::UnsignedInteger(v) => DecodedValueView::UnsignedInteger(*v),
            DecodedValue::SignedInteger(v) => DecodedValueView::SignedInteger(*v),
            DecodedValue::Float32Bits(v) => DecodedValueView::Float32Bits(*v),
            DecodedValue::Float64Bits(v) => DecodedValueView::Float64Bits(*v),
            DecodedValue::String(s) => DecodedValueView::String(s@),
            DecodedValue::ByteArray(b) => DecodedValueView::ByteArray(b@),
        }
    }
}

/// The view of an optional value.
pub open spec fn opt_value(v: Option<DecodedValue>) -> Option<DecodedValueView> {
    match v {
        Some(x) => Some(x@),
        None => None,
    }
}

/// The views of optional values.
pub open spec fn opt_values(v: Seq<Option<DecodedValue>>) -> Seq<Option<DecodedValueView>> {
    v.map_values(|x: Option<DecodedValue>| opt_value(x))
}

/// What decoding UTF-16 code units gives: a unit outside the surrogate range is its
/// character; a high surrogate (0xD800 to 0xDBFF) followed by a low one (0xDC00 to
/// 0xDFFF) is the character of the code point they combine to; any other surrogate is
/// U+FFFD, and decoding goes on with the next unit.
pub open spec fn spec_utf16_lossy(units: Seq<u16>) -> Seq<char>
    decreases units.len(),
{
    if units.len() == 0 {
        Seq::empty()
    } else if units[0] < 0xD800 || units[0] > 0xDFFF {
        seq![units[0] as char] + spec_utf16_lossy(units.drop_first())
    } else if units[0] <= 0xDBFF && units.len() >= 2 && 0xDC00 <= units[1] <= 0xDFFF {
        seq![(0x10000 + (units[0] - 0xD800) * 0x400 + (units[1] - 0xDC00)) as char]
            + spec_utf16_lossy(units.subrange(2, units.len() as int))
    } else {
        seq!['\u{FFFD}'] + spec_utf16_lossy(units.drop_first())
    }
}

/// The character of a code point (`char::from_u32`): std documents that it is `None`
/// exactly for surrogates (0xD800 to 0xDFFF) and values above 0x10FFFF.
#[verifier::external_body]
fn char_from_u32(x: u32) -> (r: Option<char>)
    ensures
        (x < 0xD800 || (0xE000 <= x && x <= 0x10FFFF)) ==> r == Some(x as char),
        !(x < 0xD800 || (0xE000 <= x && x <= 0x10FFFF)) ==> r is None,
{
    char::from_u32(x)
}

/// The characters UTF-16 code units decode to, each unpaired surrogate replaced by
/// U+FFFD.
fn decode_utf16_units(units: &[u16]) -> (r: Vec<char>)
    ensures
        r@ == spec_utf16_lossy(units@),
{
    let n = units.len();
    let mut r: Vec<char> = Vec::new();
    let mut i: usize = 0;
    assert(units@.subrange(0, n as int) =~= units@);
    assert(r@ + spec_utf16_lossy(units@) =~= spec_utf16_lossy(units@));
    while i < n
        invariant
            n == units@.len(),
            i <= n,
            r@ + spec_utf16_lossy(units@.subrange(i as int, n as int)) == spec_utf16_lossy(units@),
        decreases n - i,
    {
        let ghost rest = units@.subrange(i as int, n as int);
        let u = units[i];
        assert(rest[0] == u);
        if u < 0xD800 || u > 0xDFFF {
            let c = match char_from_u32(u as u32) {
                Some(c) => c,
                None => '\u{FFFD}',
            };
            assert(c == u as char);
            proof {
                assert(rest.drop_first() =~= units@.subrange(i + 1, n as int));
                assert(r@.push(c) + spec_utf16_lossy(rest.drop_first()) =~= r@ + (seq![c] + spec_utf16_lossy(rest.drop_first())));
            }
            r.push(c);
            i = i + 1;
        } else if u <= 0xDBFF && i + 1 < n && 0xDC00 <= units[i + 1] && units[i + 1] <= 0xDFFF {
            let lo = units[i + 1];
            assert(rest[1] == lo);
            let cp: u32 = 0x10000 + (u as u32 - 0xD800) * 0x400 + (lo as u32 - 0xDC00);
            let c = match char_from_u32(cp) {
                Some(c) => c,
                None => '\u{FFFD}',
            };
            assert(c == (0x10000 + (u - 0xD800) * 0x400 + (lo - 0xDC00)) as char);
            proof {
                assert(rest.subrange(2, rest.len() as int) =~= units@.subrange(i + 2, n as int));
                assert(r@.push(c) + spec_utf16_lossy(rest.subrange(2, rest.len() as int)) =~= r@ + (seq![c]
                    + spec_utf16_lossy(rest.subrange(2, rest.len() as int))));
            }
            r.push(c);
            i = i + 2;
        } else {
            let c = '\u{FFFD}';
            proof {
                assert(rest.drop_first() =~= units@.subrange(i + 1, n as int));
                assert(r@.push(c) + spec_utf16_lossy(rest.drop_first()) =~= r@ + (seq![c] + spec_utf16_lossy(rest.drop_first())));
            }
            r.push(c);
            i = i + 1;
        }
    }
    assert(units@.subrange(n as int, n as int) =~= Seq::<u16>::empty());
    assert(r@ + Seq::<char>::empty() =~= r@);
    r
}

/// Decodes UTF-16 code units, replacing unpaired surrogates by U+FFFD, as
/// `String::from_utf16_lossy` does.
fn utf16_lossy(units: &[u16]) -> (r: String)
    ensures
        r@ == spec_utf16_lossy(units@),
{
    string_from_chars(decode_utf16_units(units))
}

/// The string of these characters (`String::from_iter`): std documents that collecting
/// characters gives the string of exactly those characters, in order.
#[verifier::external_body]
fn string_from_chars(chars: Vec<char>) -> (r: String)
    ensures
        r@ == chars@,
{
    String::from_iter(chars)
}

/// `s` without its trailing zeros.
pub open spec fn trim_zeros(s: Seq<u8>) -> Seq<u8>
    decreases s.len(),
{
    if s.len() > 0 && s.last() == 0 {
        trim_zeros(s.drop_last())
    } else {
        s
    }
}

/// `s` without its trailing zero code units.
pub open spec fn trim_zero_units(s: Seq<u16>) -> Seq<u16>
    decreases s.len(),
{
    if s.len() > 0 && s.last() == 0 {
        trim_zero_units(s.drop_last())
    } else {
        s
    }
}

/// The length of `s` without its trailing zeros.
fn trimmed_len(s: &[u8]) -> (r: usize)
    ensures
        r <= s@.len(),
        s@.subrange(0, r as int) == trim_zeros(s@),
{
    let mut n = s.len();
    assert(s@.subrange(0, n as int) =~= s@);
    while n > 0 && s[n - 1] == 0
        invariant
            n <= s@.len(),
            trim_zeros(s@.subrange(0, n as int)) == trim_zeros(s@),
        decreases n,
    {
        assert(s@.subrange(0, n as int).drop_last() =~= s@.subrange(0, n - 1));
        n = n - 1;
    }
    proof {
        if n > 0 {
            assert(s@.subrange(0, n as int).last() == s@[n - 1]);
        }
    }
    n
}

/// The UTF-16 code units of byte pairs of `b` (an odd last byte is left out), each
/// pair little-endian or big-endian.
pub open spec fn spec_units(b: Seq<u8>, big_endian: bool) -> Seq<u16> {
    Seq::new(
        (b.len() / 2) as nat,
        |i: int|
            if big_endian {
                (b[2 * i] as u16 * 256 + b[2 * i + 1] as u16) as u16
            } else {
                (b[2 * i + 1] as u16 * 256 + b[2 * i] as u16) as u16
            },
    )
}

/// The Latin-1 characters of bytes: each byte is the code point of its character.
pub open spec fn spec_latin1(b: Seq<u8>) -> Seq<char> {
    b.map_values(|x: u8| x as char)
}

/// Decodes text in the given encoding, trailing zeros left out: Latin-1, UTF-8 (lossy)
/// or UTF-16 (lossy, little- or big-endian).
pub open spec fn spec_text_value(b: Seq<u8>, data_type: DataType) -> Seq<char> {
    match data_type {
        DataType::StringLatin1 => spec_latin1(trim_zeros(b)),
        DataType::StringUtf8 => spec_utf8_lossy(trim_zeros(b)),
        DataType::StringUtf16LE => spec_utf16_lossy(trim_zero_units(spec_units(b, false))),
        _ => spec_utf16_lossy(trim_zero_units(spec_units(b, true))),
    }
}

/// Whether a data type is a text type.
pub open spec fn is_text_type(t: DataType) -> bool {
    t is StringLatin1 || t is StringUtf8 || t is StringUtf16LE || t is StringUtf16BE
}

/// Decode text of the given text type, trailing zeros left out.
pub fn decode_text(b: &[u8], data_type: DataType) -> (r: String)
    requires
        is_text_type(data_type),
    ensures
        r@ == spec_text_value(b@, data_type),
{
    match data_type {
        DataType::StringLatin1 => {
            let n = trimmed_len(b);
            let mut chars: Vec<char> = Vec::new();
            let mut i: usize = 0;
            while i < n
                invariant
                    n <= b@.len(),
                    i <= n,
                    chars@ == spec_latin1(b@.subrange(0, i as int)),
                decreases n - i,
            {
                chars.push(b[i] as char);
                i = i + 1;
                assert(chars@ =~= spec_latin1(b@.subrange(0, i as int)));
            }
            string_from_chars(chars)
        },
        DataType::StringUtf8 => {
            let n = trimmed_len(b);
            let t = copy_range(b, 0, n);
            utf8_lossy(t.as_slice())
        },
        _ => {
            let big = match data_type {
                DataType::StringUtf16BE => true,
                _ => false,
            };
            let m = b.len() / 2;
            let mut units: Vec<u16> = Vec::new();
            let mut i: usize = 0;
            while i < m
                invariant
                    m == b@.len() / 2,
                    b@.len() <= usize::MAX,
                    i <= m,
                    units@ == spec_units(b@, big).take(i as int),
                decreases m - i,
            {
                assert(2 * i + 1 < b@.len());
                let lo = b[2 * i];
                let hi = b[2 * i + 1];
                let u: u16 = if big {
                    (lo as u16) * 256 + hi as u16
                } else {
                    (hi as u16) * 256 + lo as u16
                };
                units.push(u);
                i = i + 1;
                assert(units@ =~= spec_units(b@, big).take(i as int));
            }
            assert(units@ =~= spec_units(b@, big));
            let mut k = units.len();
            while k > 0 && units[k - 1] == 0
                invariant
                    k <= units@.len(),
                    trim_zero_units(units@.take(k as int)) == trim_zero_units(units@),
                decreases k,
            {
                assert(units@.take(k as int).drop_last() =~= units@.take(k - 1));
                k = k - 1;
            }
            assert(units@.take(units@.len() as int) =~= units@);
            proof {
                if k > 0 {
                    assert(units@.take(k as int).last() == units@[k - 1]);
                }
            }
            units.truncate(k);
            utf16_lossy(units.as_slice())
        },
    }
}

/// What a VLSD record (the whole record is the value) decodes to: nothing for an empty
/// record; text for text types (UTF-16 needs at least two bytes); little-endian
/// integers and floating-point values of 1, 2, 4 or 8 bytes (4 or 8 for floats);
/// anything else as the bytes themselves.
pub open spec fn spec_vlsd_value(r: Seq<u8>, t: DataType) -> Option<DecodedValueView> {
    let n = r.len();
    if n == 0 {
        None
    } else if t is StringLatin1 || t is StringUtf8 {
        Some(DecodedValueView::String(spec_text_value(r, t)))
    } else if t is StringUtf16LE || t is StringUtf16BE {
        if n >= 2 {
            Some(DecodedValueView::String(spec_text_value(r, t)))
        } else {
            None
        }
    } else if t is UnsignedIntegerLE && n == 1 {
        Some(DecodedValueView::UnsignedInteger(r[0] as u64))
    } else if t is UnsignedIntegerLE && n == 2 {
        Some(DecodedValueView::UnsignedInteger(from_le16(r[0], r[1]) as u64))
    } else if t is UnsignedIntegerLE && n == 4 {
        Some(DecodedValueView::UnsignedInteger(u32_at(r, 0) as u64))
    } else if t is UnsignedIntegerLE && n == 8 {
        Some(DecodedValueView::UnsignedInteger(u64_at(r, 0)))
    } else if t is SignedIntegerLE && n == 1 {
        Some(DecodedValueView::SignedInteger((r[0] as i8) as i64))
    } else if t is SignedIntegerLE && n == 2 {
        Some(DecodedValueView::SignedInteger((from_le16(r[0], r[1]) as i16) as i64))
    } else if t is SignedIntegerLE && n == 4 {
        Some(DecodedValueView::SignedInteger((u32_at(r, 0) as i32) as i64))
    } else if t is SignedIntegerLE && n == 8 {
        Some(DecodedValueView::SignedInteger(u64_at(r, 0) as i64))
    } else if t is FloatLE && n == 4 {
        Some(DecodedValueView::Float32Bits(u32_at(r, 0)))
    } else if t is FloatLE && n == 8 {
        Some(DecodedValueView::Float64Bits(u64_at(r, 0)))
    } else {
        Some(DecodedValueView::ByteArray(r))
    }
}

/// Decode a VLSD value from its raw bytes.
pub fn decode_vlsd_value(record: &[u8], data_type: DataType) -> (r: Option<DecodedValue>)
    ensures
        opt_value(r) == spec_vlsd_value(record@, data_type),
{
    let n = record.len();
    if n == 0 {
        return None;
    }
    let whole = copy_range(record, 0, n);
    assert(whole@ =~= record@);
    match data_type {
        DataType::StringLatin1 | DataType::StringUtf8 => {
            let s = decode_text(record, data_type);
            assert(s@ == spec_text_value(record@, data_type));
            Some(DecodedValue::String(s))
        },
        DataType::StringUtf16LE | DataType::StringUtf16BE => {
            if n >= 2 {
                Some(DecodedValue::String(decode_text(record, data_type)))
            } else {
                None
            }
        },
        DataType::UnsignedIntegerLE => {
            if n == 1 {
                Some(DecodedValue::UnsignedInteger(record[0] as u64))
            } else if n == 2 {
                Some(DecodedValue::UnsignedInteger(read_le16(record[0], record[1]) as u64))
            } else if n == 4 {
                Some(DecodedValue::UnsignedInteger(read_u32_at(record, 0) as u64))
            } else if n == 8 {
                Some(DecodedValue::UnsignedInteger(read_u64_at(record, 0)))
            } else {
                Some(DecodedValue::ByteArray(whole))
            }
        },
        DataType::SignedIntegerLE => {
            if n == 1 {
                Some(DecodedValue::SignedInteger((#[verifier::truncate] (record[0] as i8)) as i64))
            } else if n == 2 {
                Some(DecodedValue::SignedInteger((#[verifier::truncate] (read_le16(record[0], record[1]) as i16)) as i64))
            } else if n == 4 {
                Some(DecodedValue::SignedInteger((#[verifier::truncate] (read_u32_at(record, 0) as i32)) as i64))
            } else if n == 8 {
                Some(DecodedValue::SignedInteger(#[verifier::truncate] (read_u64_at(record, 0) as i64)))
            } else {
                Some(DecodedValue::ByteArray(whole))
            }
        },
        DataType::FloatLE => {
            if n == 4 {
                Some(DecodedValue::Float32Bits(read_u32_at(record, 0)))
            } else if n == 8 {
                Some(DecodedValue::Float64Bits(read_u64_at(record, 0)))
            } else {
                Some(DecodedValue::ByteArray(whole))
            }
        },
        _ => Some(DecodedValue::ByteArray(whole)),
    }
}

/// The value of the bytes of `s`, little-endian, kept to 64 bits.
pub open spec fn le_value(s: Seq<u8>) -> u64
    decreases s.len(),
{
    if s.len() == 0 {
        0
    } else {
        (s[0] as u64) | (le_value(s.drop_first()) << 8u64)
    }
}

/// The value of the bytes of `s`, big-endian, kept to 64 bits.
pub open spec fn be_value(s: Seq<u8>) -> u64
    decreases s.len(),
{
    if s.len() == 0 {
        0
    } else {
        (be_value(s.drop_last()) << 8u64) | (s.last() as u64)
    }
}

/// The mask of the low `bits` bits (all 64 for 64 or more).
pub open spec fn low_mask(bits: u32) -> u64 {
    if bits >= 64 {
        u64::MAX
    } else {
        ((1u64 << bits) - 1) as u64
    }
}

/// The `bits`-bit two's complement value `v` as an `i64`.
pub open spec fn sign_extend(v: u64, bits: u32) -> i64 {
    if bits >= 64 || bits == 0 {
        v as i64
    } else if v & (1u64 << ((bits - 1) as u32)) != 0 {
        (v | !low_mask(bits)) as i64
    } else {
        v as i64
    }
}

/// Whether a channel's value in a record is invalid: the channel marks all its values
/// invalid (flag bit 0), or its invalidation bit is in use (flag bit 1) and set in the
/// record's invalidation bytes, which follow the record ID and the data bytes.
pub open spec fn spec_invalid(rec: Seq<u8>, rec_id: int, data_bytes: int, ch: IndexedChannel) -> bool {
    let pos = ch.pos_invalidation_bit;
    let ib = rec_id + data_bytes + pos / 8;
    ||| ch.flags & 1 != 0
    ||| (ch.flags & 2 != 0 && ib < rec.len() && (rec[ib] >> ((pos % 8) as u8)) & 1 != 0)
}

/// Whether a data type is an integer type.
pub open spec fn is_integer_type(t: DataType) -> bool {
    t is UnsignedIntegerLE || t is UnsignedIntegerBE || t is SignedIntegerLE || t is SignedIntegerBE
}

/// Whether a data type stores its bytes big-endian.
pub open spec fn is_big_endian(t: DataType) -> bool {
    t is UnsignedIntegerBE || t is SignedIntegerBE || t is FloatBE
}

/// The value of a channel in a record, or nothing when it is invalid or cannot be read.
/// The value starts at byte `rec_id + byte_offset`. An integer is the `bit_count` bits
/// from `bit_offset` on (at most 64 bits in all, little- or big-endian), sign-extended
/// for signed types. A floating-point value is 4 or 8 whole bytes. Text and other values
/// are the `bit_count / 8` bytes, text decoded.
pub open spec fn spec_decode_record(rec: Seq<u8>, rec_id: int, data_bytes: int, ch: IndexedChannel) -> Option<DecodedValueView> {
    let t = ch.data_type;
    let start = rec_id + ch.byte_offset;
    let bits = ch.bit_count;
    let off = ch.bit_offset;
    if spec_invalid(rec, rec_id, data_bytes, ch) {
        None
    } else if is_integer_type(t) {
        let n = (off + bits + 7) / 8;
        if bits == 0 || off + bits > 64 || start + n > rec.len() {
            None
        } else {
            let b = rec.subrange(start, start + n);
            let raw = if is_big_endian(t) { be_value(b) } else { le_value(b) };
            let v = (raw >> off) & low_mask(bits);
            if t is UnsignedIntegerLE || t is UnsignedIntegerBE {
                Some(DecodedValueView::UnsignedInteger(v))
            } else {
                Some(DecodedValueView::SignedInteger(sign_extend(v, bits)))
            }
        }
    } else if t is FloatLE || t is FloatBE {
        let n = bits / 8;
        if off != 0 || !(bits == 32 || bits == 64) || start + n > rec.len() {
            None
        } else {
            let b = rec.subrange(start, start + n);
            let raw = if is_big_endian(t) { be_value(b) } else { le_value(b) };
            if bits == 32 {
                Some(DecodedValueView::Float32Bits(raw as u32))
            } else {
                Some(DecodedValueView::Float64Bits(raw))
            }
        }
    } else {
        let n = bits / 8;
        if start + n > rec.len() {
            None
        } else {
            let b = rec.subrange(start, start + n);
            if is_text_type(t) {
                Some(DecodedValueView::String(spec_text_value(b, t)))
            } else {
                Some(DecodedValueView::ByteArray(b))
            }
        }
    }
}

/// The value of the bytes of `s` (at most 8), little-endian.
fn read_le_value(s: &[u8]) -> (r: u64)
    ensures
        r == le_value(s@),
{
    let mut v: u64 = 0;
    let mut i = s.len();
    assert(s@.skip(i as int) =~= Seq::<u8>::empty());
    while i > 0
        invariant
            i <= s@.len(),
            v == le_value(s@.skip(i as int)),
        decreases i,
    {
        assert(s@.skip(i - 1).drop_first() =~= s@.skip(i as int));
        v = (s[i - 1] as u64) | (v << 8u64);
        i = i - 1;
    }
    assert(s@.skip(0) =~= s@);
    v
}

/// The value of the bytes of `s`, big-endian.
fn read_be_value(s: &[u8]) -> (r: u64)
    ensures
        r == be_value(s@),
{
    let mut v: u64 = 0;
    let mut i: usize = 0;
    while i < s.len()
        invariant
            i <= s@.len(),
            v == be_value(s@.take(i as int)),
        decreases s@.len() - i,
    {
        assert(s@.take(i + 1).drop_last() =~= s@.take(i as int));
        v = (v << 8u64) | (s[i] as u64);
        i = i + 1;
    }
    assert(s@.take(s@.len() as int) =~= s@);
    v
}

/// Decode a channel's value in a record; `None` when it is invalid or cannot be read.
pub fn decode_record(rec: &[u8], rec_id: usize, data_bytes: usize, ch: &IndexedChannel) -> (r: Option<DecodedValue>)
    requires
        rec_id <= 0xFF,
        data_bytes <= 0xFFFF_FFFF,
    ensures
        opt_value(r) == spec_decode_record(rec@, rec_id as int, data_bytes as int, *ch),
{
    let len = rec.len() as u64;
    let pos = ch.pos_invalidation_bit;
    let ib: u64 = rec_id as u64 + data_bytes as u64 + (pos / 8) as u64;
    let all_invalid = ch.flags & 1 != 0;
    let bit_invalid = ch.flags & 2 != 0 && ib < len && (rec[ib as usize] >> ((pos % 8) as u8)) & 1 != 0;
    if all_invalid || bit_invalid {
        return None;
    }
    let t = ch.data_type;
    let start: u64 = rec_id as u64 + ch.byte_offset as u64;
    let bits = ch.bit_count;
    let off = ch.bit_offset;
    let big = match t {
        DataType::UnsignedIntegerBE | DataType::SignedIntegerBE | DataType::FloatBE => true,
        _ => false,
    };
    match t {
        DataType::UnsignedIntegerLE | DataType::UnsignedIntegerBE | DataType::SignedIntegerLE
        | DataType::SignedIntegerBE => {
            let n: u64 = (off as u64 + bits as u64 + 7) / 8;
            if bits == 0 || off as u64 + bits as u64 > 64 || start + n > len {
                return None;
            }
            let b = copy_range(rec, start as usize, (start + n) as usize);
            let raw = if big { read_be_value(b.as_slice()) } else { read_le_value(b.as_slice()) };
            let mask: u64 = if bits >= 64 {
                u64::MAX
            } else {
                assert(1u64 << bits >= 1) by (bit_vector)
                    requires
                        bits < 64,
                ;
                (1u64 << bits) - 1
            };
            let v = (raw >> off) & mask;
            match t {
                DataType::UnsignedIntegerLE | DataType::UnsignedIntegerBE => {
                    Some(DecodedValue::UnsignedInteger(v))
                },
                _ => {
                    let s: i64 = if bits >= 64 {
                        #[verifier::truncate] (v as i64)
                    } else if v & (1u64 << (bits - 1)) != 0 {
                        #[verifier::truncate] ((v | !mask) as i64)
                    } else {
                        #[verifier::truncate] (v as i64)
                    };
                    Some(DecodedValue::SignedInteger(s))
                },
            }
        },
        DataType::FloatLE | DataType::FloatBE => {
            let n: u64 = (bits / 8) as u64;
            if off != 0 || !(bits == 32 || bits == 64) || start + n > len {
                return None;
            }
            let b = copy_range(rec, start as usize, (start + n) as usize);
            let raw = if big { read_be_value(b.as_slice()) } else { read_le_value(b.as_slice()) };
            if bits == 32 {
                Some(DecodedValue::Float32Bits(#[verifier::truncate] (raw as u32)))
            } else {
                Some(DecodedValue::Float64Bits(raw))
            }
        },
        _ => {
            let n: u64 = (bits / 8) as u64;
            if start + n > len {
                return None;
            }
            let b = copy_range(rec, start as usize, (start + n) as usize);
            match t {
                DataType::StringLatin1 | DataType::StringUtf8 | DataType::StringUtf16LE
                | DataType::StringUtf16BE => Some(DecodedValue::String(decode_text(b.as_slice(), t))),
                _ => Some(DecodedValue::ByteArray(b)),
            }
        },
    }
}

} // verus!

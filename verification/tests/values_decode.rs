use mdf4_rs::blocks::DataType;
use mdf4_rs::index::IndexedChannel;
use mdf4_rs::reader::{RangeBuffer, WindowStep};
use mdf4_rs::error::MdfError;
use mdf4_rs::values::{decode_record, decode_text, decode_vlsd_value, DecodedValue};

fn channel(data_type: DataType, byte_offset: u32, bit_offset: u8, bit_count: u32, flags: u32, pos: u32) -> IndexedChannel {
    IndexedChannel {
        name: None,
        unit: None,
        data_type,
        byte_offset,
        bit_offset,
        bit_count,
        channel_type: 0,
        flags,
        pos_invalidation_bit: pos,
        vlsd_data_address: None,
    }
}

#[test]
fn vlsd_text_values_drop_trailing_zeros() {
    assert_eq!(
        decode_vlsd_value(b"abc\0\0", DataType::StringUtf8),
        Some(DecodedValue::String("abc".to_string()))
    );
    // Invalid UTF-8 becomes the replacement character.
    assert_eq!(
        decode_vlsd_value(&[0x61, 0xFF, 0x62], DataType::StringUtf8),
        Some(DecodedValue::String("a\u{FFFD}b".to_string()))
    );
    // Latin-1: every byte is its own character.
    assert_eq!(
        decode_vlsd_value(&[0x63, 0x61, 0x66, 0xE9, 0x00], DataType::StringLatin1),
        Some(DecodedValue::String("caf\u{e9}".to_string()))
    );
    // UTF-16 both ways, with a trailing zero unit.
    assert_eq!(
        decode_vlsd_value(&[0x48, 0x00, 0x69, 0x00, 0x00, 0x00], DataType::StringUtf16LE),
        Some(DecodedValue::String("Hi".to_string()))
    );
    assert_eq!(
        decode_vlsd_value(&[0x00, 0x48, 0x00, 0x69], DataType::StringUtf16BE),
        Some(DecodedValue::String("Hi".to_string()))
    );
    assert_eq!(decode_vlsd_value(&[0x48], DataType::StringUtf16LE), None);
    assert_eq!(decode_vlsd_value(&[], DataType::ByteArray), None);
}

#[test]
fn vlsd_numbers_by_size() {
    assert_eq!(decode_vlsd_value(&[0xFE], DataType::UnsignedIntegerLE), Some(DecodedValue::UnsignedInteger(254)));
    assert_eq!(decode_vlsd_value(&[0xFE], DataType::SignedIntegerLE), Some(DecodedValue::SignedInteger(-2)));
    assert_eq!(decode_vlsd_value(&[0x34, 0x12], DataType::UnsignedIntegerLE), Some(DecodedValue::UnsignedInteger(0x1234)));
    assert_eq!(decode_vlsd_value(&[0x00, 0x80], DataType::SignedIntegerLE), Some(DecodedValue::SignedInteger(-32768)));
    assert_eq!(
        decode_vlsd_value(&[0x78, 0x56, 0x34, 0x12], DataType::UnsignedIntegerLE),
        Some(DecodedValue::UnsignedInteger(0x1234_5678))
    );
    assert_eq!(
        decode_vlsd_value(&[0xFF, 0xFF, 0xFF, 0xFF, 0xFF, 0xFF, 0xFF, 0xFF], DataType::SignedIntegerLE),
        Some(DecodedValue::SignedInteger(-1))
    );
    assert_eq!(
        decode_vlsd_value(&1.5f32.to_le_bytes(), DataType::FloatLE),
        Some(DecodedValue::Float32Bits(1.5f32.to_bits()))
    );
    assert_eq!(
        decode_vlsd_value(&(-2.25f64).to_le_bytes(), DataType::FloatLE),
        Some(DecodedValue::Float64Bits((-2.25f64).to_bits()))
    );
    assert_eq!(
        decode_vlsd_value(&[1, 2, 3], DataType::UnsignedIntegerLE),
        Some(DecodedValue::ByteArray(vec![1, 2, 3]))
    );
    assert_eq!(decode_vlsd_value(&[9, 8], DataType::MimeSample), Some(DecodedValue::ByteArray(vec![9, 8])));
}

#[test]
fn record_bit_fields_and_validity() {
    // Record: 1 record-ID byte, 4 data bytes, 1 invalidation byte.
    let rec = [0x01, 0xB4, 0x12, 0x34, 0xFF, 0b0000_0100];
    // 4 bits from bit 4 of data byte 0 (0xB4 -> 0xB).
    let ch = channel(DataType::UnsignedIntegerLE, 0, 4, 4, 0, 0);
    assert_eq!(decode_record(&rec, 1, 4, &ch), Some(DecodedValue::UnsignedInteger(0xB)));
    // The same bits as a signed 4-bit value: 0xB is -5.
    let ch = channel(DataType::SignedIntegerLE, 0, 4, 4, 0, 0);
    assert_eq!(decode_record(&rec, 1, 4, &ch), Some(DecodedValue::SignedInteger(-5)));
    // 16 bits big-endian from data byte 1.
    let ch = channel(DataType::UnsignedIntegerBE, 1, 0, 16, 0, 0);
    assert_eq!(decode_record(&rec, 1, 4, &ch), Some(DecodedValue::UnsignedInteger(0x1234)));
    // Invalidation bit 2 is set: the value is invalid when the bit is in use.
    let ch = channel(DataType::UnsignedIntegerLE, 1, 0, 16, 0x02, 2);
    assert_eq!(decode_record(&rec, 1, 4, &ch), None);
    // Invalidation bit 1 is clear.
    let ch = channel(DataType::UnsignedIntegerLE, 1, 0, 16, 0x02, 1);
    assert_eq!(decode_record(&rec, 1, 4, &ch), Some(DecodedValue::UnsignedInteger(0x3412)));
    // All values invalid.
    let ch = channel(DataType::UnsignedIntegerLE, 1, 0, 16, 0x01, 0);
    assert_eq!(decode_record(&rec, 1, 4, &ch), None);
    // Past the record.
    let ch = channel(DataType::UnsignedIntegerLE, 4, 0, 32, 0, 0);
    assert_eq!(decode_record(&rec, 1, 4, &ch), None);
    // Byte arrays and text take whole bytes.
    let ch = channel(DataType::ByteArray, 1, 0, 16, 0, 0);
    assert_eq!(decode_record(&rec, 1, 4, &ch), Some(DecodedValue::ByteArray(vec![0x12, 0x34])));
    let text = [0x41, 0x42, 0x00];
    let ch = channel(DataType::StringLatin1, 0, 0, 24, 0, 0);
    assert_eq!(decode_record(&text, 0, 3, &ch), Some(DecodedValue::String("AB".to_string())));
    // A float needs 32 or 64 whole bits.
    let ch = channel(DataType::FloatLE, 0, 0, 16, 0, 0);
    assert_eq!(decode_record(&rec, 1, 4, &ch), None);
    let f = 3.0f32.to_le_bytes();
    let ch = channel(DataType::FloatLE, 0, 0, 32, 0, 0);
    assert_eq!(decode_record(&f, 0, 4, &ch), Some(DecodedValue::Float32Bits(3.0f32.to_bits())));
}

#[test]
fn decode_text_kinds() {
    assert_eq!(decode_text(&[0xC3, 0xA9, 0, 0], DataType::StringUtf8), "\u{e9}");
    assert_eq!(decode_text(&[0x3D, 0xD8, 0x00, 0xDE], DataType::StringUtf16LE), "\u{1F600}");
    assert_eq!(decode_text(&[0x00, 0xD8], DataType::StringUtf16LE), "\u{FFFD}");
}

#[test]
fn range_buffer_serves_what_it_holds() {
    let mut buf = RangeBuffer::new();
    assert_eq!(buf.serve(0, 0), Some(vec![]));
    assert_eq!(buf.serve(0, 1), None);
    buf.replace(100, vec![1, 2, 3, 4]);
    assert_eq!(buf.serve(101, 2), Some(vec![2, 3]));
    assert_eq!(buf.serve(100, 4), Some(vec![1, 2, 3, 4]));
    assert_eq!(buf.serve(99, 1), None);
    assert_eq!(buf.serve(103, 2), None);
}

#[test]
fn utf16_unpaired_surrogates_become_replacement_characters() {
    // A high surrogate not followed by a low one, then a lone low surrogate.
    assert_eq!(decode_text(&[0x00, 0xD8, 0x41, 0x00], DataType::StringUtf16LE), "\u{FFFD}A");
    assert_eq!(decode_text(&[0xDC, 0x00, 0x00, 0x42], DataType::StringUtf16BE), "\u{FFFD}B");
}

#[test]
fn a_window_serves_refills_or_reads_directly() {
    let mut buf = RangeBuffer::new();
    assert!(matches!(buf.plan(0, 4, 16), WindowStep::Refill));
    assert!(matches!(buf.plan(0, 32, 16), WindowStep::ReadDirect));
    assert_eq!(buf.refill_and_serve(100, 4, vec![1, 2, 3, 4, 5, 6]), Ok(vec![1, 2, 3, 4]));
    match buf.plan(102, 3, 16) {
        WindowStep::Serve(v) => assert_eq!(v, vec![3, 4, 5]),
        other => panic!("expected to serve, got {:?}", other),
    }
    assert!(matches!(buf.plan(104, 4, 16), WindowStep::Refill));
    assert_eq!(buf.refill_and_serve(200, 8, vec![9, 9]), Err(MdfError::UnexpectedEof));
    assert_eq!(buf.start, 200);
}

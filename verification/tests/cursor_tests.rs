use gvas_codec::cursor::Cursor;
use gvas_codec::error::FormatError;
use gvas_codec::graphql::ID;
use gvas_codec::le::{read_le, signed16, signed32, signed64, signed8, unsigned32, unsigned8, write_le};
use gvas_codec::text::Text;

#[test]
fn write_le_puts_the_low_byte_first() {
    let mut out = vec![0xffu8];
    write_le(&mut out, 0x0102_0304, 4);
    assert_eq!(out, vec![0xff, 0x04, 0x03, 0x02, 0x01]);
    write_le(&mut out, 0x1122, 8);
    assert_eq!(out[5..], [0x22, 0x11, 0, 0, 0, 0, 0, 0]);
}

#[test]
fn write_le_keeps_only_the_low_bytes() {
    let mut out = Vec::new();
    write_le(&mut out, 0x0102_0304, 2);
    assert_eq!(out, vec![0x04, 0x03]);
}

#[test]
fn read_le_reads_what_write_le_wrote() {
    let data = [0u8, 0x78, 0x56, 0x34, 0x12, 9];
    assert_eq!(read_le(&data, 1, 4), 0x1234_5678);
    assert_eq!(read_le(&data, 1, 2), 0x5678);
    assert_eq!(read_le(&data, 5, 1), 9);
    assert_eq!(read_le(&data, 2, 0), 0);
}

#[test]
fn signed_readings_are_twos_complement() {
    assert_eq!(signed8(0xff), -1);
    assert_eq!(signed8(0x80), i8::MIN);
    assert_eq!(signed8(0x7f), i8::MAX);
    assert_eq!(signed16(0xfffe), -2);
    assert_eq!(signed32(0xffff_fffa), -6);
    assert_eq!(signed32(0x8000_0000), i32::MIN);
    assert_eq!(signed64(0xffff_ffff_ffff_ffff), -1);
    assert_eq!(unsigned8(-1), 0xff);
    assert_eq!(unsigned32(-4), 0xffff_fffc);
    assert_eq!(unsigned32(i32::MIN), 0x8000_0000);
}

#[test]
fn fixed_width_reads_advance_by_their_width() {
    let data = [
        0x01, 0x02, 0x03, 0x04, 0x05, 0x06, 0x07, 0x08, 0x09, 0x0a, 0x0b, 0x0c, 0x0d, 0x0e, 0x0f,
    ];
    let mut cursor = Cursor::new(&data);
    assert_eq!(cursor.read_u8().unwrap(), 0x01);
    assert_eq!(cursor.position(), 1);
    assert_eq!(cursor.read_u16().unwrap(), 0x0302);
    assert_eq!(cursor.position(), 3);
    assert_eq!(cursor.read_u32().unwrap(), 0x0706_0504);
    assert_eq!(cursor.position(), 7);
    assert_eq!(cursor.read_u64().unwrap(), 0x0f0e_0d0c_0b0a_0908);
    assert_eq!(cursor.position(), 15);
    assert_eq!(cursor.remaining(), 0);
}

#[test]
fn signed_reads_take_the_sign_from_the_top_bit() {
    let data = [0xfb, 0xff, 0xff, 0xff, 0xfe, 0xff, 0xff, 0xff, 0xff, 0xff, 0xff, 0xff, 0x80, 0x00, 0x80];
    let mut cursor = Cursor::new(&data);
    assert_eq!(cursor.read_i32().unwrap(), -5);
    assert_eq!(cursor.read_i64().unwrap(), -2);
    assert_eq!(cursor.read_i8().unwrap(), -128);
    assert_eq!(cursor.read_i16().unwrap(), -32768);
}

#[test]
fn float_reads_give_the_bit_pattern() {
    let mut data = 1.5f32.to_le_bytes().to_vec();
    data.extend_from_slice(&(-2.25f64).to_le_bytes());
    let mut cursor = Cursor::new(&data);
    assert_eq!(f32::from_bits(cursor.read_f32_bits().unwrap()), 1.5f32);
    assert_eq!(f64::from_bits(cursor.read_f64_bits().unwrap()), -2.25f64);
}

#[test]
fn a_short_read_fails_as_truncated_and_leaves_the_cursor() {
    let data = [1u8, 2, 3];
    let mut cursor = Cursor::new(&data);
    assert!(matches!(cursor.read_u32(), Err(FormatError::Truncated)));
    assert_eq!(cursor.position(), 0);
    assert!(matches!(cursor.read_u64(), Err(FormatError::Truncated)));
    assert!(matches!(cursor.read_guid(), Err(FormatError::Truncated)));
    assert!(matches!(cursor.read_bytes(4), Err(FormatError::Truncated)));
    assert_eq!(cursor.read_u16().unwrap(), 0x0201);
    assert!(matches!(cursor.read_u16(), Err(FormatError::Truncated)));
    assert_eq!(cursor.position(), 2);
    assert_eq!(cursor.read_u8().unwrap(), 3);
    assert!(matches!(cursor.read_u8(), Err(FormatError::Truncated)));
}

#[test]
fn a_length_of_six_is_five_characters_and_a_terminator() {
    let data = [6u8, 0, 0, 0, b'H', b'e', b'l', b'l', b'o', 0, 0xaa];
    let mut cursor = Cursor::new(&data);
    let text = cursor.read_text().unwrap();
    assert_eq!(cursor.position(), 10);
    assert!(text.is_ascii(b"Hello"));
    assert_eq!(text.unit_count(), 6);
    assert_eq!(text.to_string(), "Hello");
    assert!(matches!(text, Text::Narrow(ref units) if units == &vec![b'H', b'e', b'l', b'l', b'o', 0]));
}

#[test]
fn a_length_of_minus_four_is_three_wide_characters_and_a_terminator() {
    let data = [0xfc, 0xff, 0xff, 0xff, 0x50, 0x00, 0xe9, 0x00, 0x42, 0x30, 0x00, 0x00, 0xaa];
    let mut cursor = Cursor::new(&data);
    let text = cursor.read_text().unwrap();
    assert_eq!(cursor.position(), 12);
    assert_eq!(text.unit_count(), 4);
    assert!(matches!(text, Text::Wide(ref units) if units == &vec![0x0050, 0x00e9, 0x3042, 0x0000]));
    assert_eq!(text.to_string(), "P\u{e9}\u{3042}");
    assert!(!text.is_ascii(b"P"));
}

#[test]
fn a_length_of_zero_is_the_empty_string_and_takes_only_the_prefix() {
    let data = [0u8, 0, 0, 0, 7];
    let mut cursor = Cursor::new(&data);
    let text = cursor.read_text().unwrap();
    assert_eq!(cursor.position(), 4);
    assert_eq!(text.unit_count(), 0);
    assert_eq!(text.to_string(), "");
    assert_eq!(cursor.read_u8().unwrap(), 7);
}

#[test]
fn read_string_gives_the_host_text() {
    let data = [8u8, 0, 0, 0, b'T', b'r', b'i', b's', b't', b'a', b'n', 0];
    let mut cursor = Cursor::new(&data);
    assert_eq!(cursor.read_string().unwrap(), "Tristan");
    assert_eq!(cursor.remaining(), 0);
}

#[test]
fn a_text_that_runs_over_the_end_is_truncated_and_leaves_the_cursor() {
    let narrow = [6u8, 0, 0, 0, b'H', b'e'];
    let mut cursor = Cursor::new(&narrow);
    assert!(matches!(cursor.read_text(), Err(FormatError::Truncated)));
    assert_eq!(cursor.position(), 0);
    let wide = [0xfe, 0xff, 0xff, 0xff, 0x41, 0x00, 0x00];
    let mut cursor = Cursor::new(&wide);
    assert!(matches!(cursor.read_string(), Err(FormatError::Truncated)));
    assert_eq!(cursor.position(), 0);
    let prefix = [1u8, 0];
    let mut cursor = Cursor::new(&prefix);
    assert!(matches!(cursor.read_text(), Err(FormatError::Truncated)));
}

#[test]
fn invalid_bytes_in_a_text_are_replaced_in_the_host_text() {
    let text = Text::Narrow(vec![b'a', 0xff, b'b', 0]);
    assert_eq!(text.to_string(), "a\u{fffd}b");
    let lone_surrogate = Text::Wide(vec![0x0041, 0xd800, 0x0000]);
    assert_eq!(lone_surrogate.to_string(), "A\u{fffd}");
}

#[test]
fn from_ascii_appends_the_terminator() {
    let text = Text::from_ascii(b"Level");
    assert!(matches!(text, Text::Narrow(ref units) if units == &vec![b'L', b'e', b'v', b'e', b'l', 0]));
    assert!(text.is_ascii(b"Level"));
    assert!(!text.is_ascii(b"Leve"));
    assert!(!text.is_ascii(b"Level\0"));
    assert!(!Text::Narrow(vec![b'L', 1]).is_ascii(b"L"));
    let copy = text.clone();
    assert!(copy.is_ascii(b"Level"));
}

#[test]
fn read_guid_takes_sixteen_raw_bytes() {
    let data = [
        0x55, 0x0e, 0x84, 0x00, 0xe2, 0x9b, 0x41, 0xd4, 0xa7, 0x16, 0x44, 0x66, 0x55, 0x44, 0x00,
        0x0f, 0x99,
    ];
    let mut cursor = Cursor::new(&data);
    let id = cursor.read_guid().unwrap();
    assert_eq!(cursor.position(), 16);
    assert_eq!(id.0[..], data[..16]);
    assert_eq!(id.to_value(), "550e8400-e29b-41d4-a716-44665544000f");
}

#[test]
fn an_identifier_is_read_from_its_text() {
    let id = ID::parse("550e8400-e29b-41d4-a716-446655440000").unwrap();
    assert_eq!(
        id.0,
        [0x55, 0x0e, 0x84, 0x00, 0xe2, 0x9b, 0x41, 0xd4, 0xa7, 0x16, 0x44, 0x66, 0x55, 0x44, 0x00, 0x00]
    );
    assert_eq!(id.to_value(), "550e8400-e29b-41d4-a716-446655440000");
    let simple = ID::parse("550E8400E29B41D4A716446655440000").unwrap();
    assert_eq!(simple, id);
    assert!(ID::parse("not an identifier").is_none());
    assert!(ID::parse("").is_none());
    assert_eq!(ID::nil().to_value(), "00000000-0000-0000-0000-000000000000");
    assert_eq!(ID::nil().0, [0u8; 16]);
}

#[test]
fn seek_moves_inside_the_buffer_only() {
    let data = [1u8, 2, 3, 4];
    let mut cursor = Cursor::new(&data);
    assert_eq!(cursor.len(), 4);
    assert!(cursor.seek(3).is_ok());
    assert_eq!(cursor.position(), 3);
    assert_eq!(cursor.remaining(), 1);
    assert!(cursor.seek(4).is_ok());
    assert_eq!(cursor.remaining(), 0);
    assert!(matches!(cursor.seek(5), Err(FormatError::Truncated)));
    assert_eq!(cursor.position(), 4);
    assert!(cursor.seek(0).is_ok());
    assert_eq!(cursor.read_u8().unwrap(), 1);
    assert_eq!(cursor.to_vec(), vec![1, 2, 3, 4]);
}

#[test]
fn a_window_is_a_cursor_over_the_next_bytes() {
    let data = [9u8, 1, 2, 3, 8];
    let mut cursor = Cursor::new(&data);
    cursor.read_u8().unwrap();
    let mut inner = cursor.window(3).unwrap();
    assert_eq!(cursor.position(), 4);
    assert_eq!(inner.len(), 3);
    assert_eq!(inner.position(), 0);
    assert_eq!(inner.read_u16().unwrap(), 0x0201);
    assert_eq!(inner.read_u8().unwrap(), 3);
    assert!(matches!(inner.read_u8(), Err(FormatError::Truncated)));
    assert!(matches!(cursor.window(2), Err(FormatError::Truncated)));
    assert_eq!(cursor.position(), 4);
    assert!(matches!(cursor.window(u64::MAX), Err(FormatError::Truncated)));
    assert_eq!(cursor.read_bytes(1).unwrap(), vec![8]);
}

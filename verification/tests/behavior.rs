use s7_codec::{
    bcd_to_byte, get_bool, get_byte, get_date, get_date_time_object, get_dint, get_dt, get_dword,
    get_fstring, get_int, get_lint, get_lword, get_s5time, get_sint, get_string, get_time,
    get_tod, get_uint, get_word, parse_time_string, set_bool, set_char, set_date, set_dint,
    set_fstring, set_int, set_lint, set_sint, set_string, set_time, set_word, AreaCode, AreaTable,
    BlockType, CodecError, ConnType, Date, DateTime, InternalParam, MaskKind, WordLenTable,
};

#[test]
fn word_endianness() {
    let mut buf = [0u8; 2];
    set_word(&mut buf, 0, 0x1234).unwrap();
    assert_eq!(buf[0], 0x12);
    assert_eq!(buf[1], 0x34);
}

#[test]
fn bit_isolation_no_op() {
    let mut buf = [0b10101010u8];
    set_bool(&mut buf, 0, 1, true).unwrap();
    assert_eq!(buf, [0b10101010]);
}

#[test]
fn bit_isolation_set_single() {
    let mut buf = [0u8];
    set_bool(&mut buf, 0, 3, true).unwrap();
    assert_eq!(buf, [0b00001000]);
}

#[test]
fn bit_isolation_clear_single() {
    let mut buf = [0b11111111u8];
    set_bool(&mut buf, 0, 5, false).unwrap();
    assert_eq!(buf, [0b11011111]);
}

#[test]
fn bool_round_trip_all_bits() {
    let mut buf = [0b01010101u8];
    for bit in 0..8usize {
        let v = bit % 3 == 0;
        set_bool(&mut buf, 0, bit, v).unwrap();
        assert_eq!(get_bool(&buf, 0, bit).unwrap(), v);
    }
}

#[test]
fn bool_index_out_of_range() {
    let mut buf = [0u8];
    assert_eq!(set_bool(&mut buf, 0, 8, true), Err(CodecError::Range));
    assert_eq!(buf, [0u8]);
}

#[test]
fn byte_round_trip_exhaustive() {
    let mut buf = [0u8; 1];
    for v in 0..=255u8 {
        s7_codec::set_byte(&mut buf, 0, v).unwrap();
        assert_eq!(get_byte(&buf, 0).unwrap(), v);
    }
}

#[test]
fn sint_round_trip_exhaustive() {
    let mut buf = [0u8; 1];
    for v in i8::MIN..=i8::MAX {
        set_sint(&mut buf, 0, v).unwrap();
        assert_eq!(get_sint(&buf, 0).unwrap(), v);
    }
}

#[test]
fn word_round_trip_exhaustive() {
    let mut buf = [0u8; 2];
    for v in 0..=u16::MAX {
        set_word(&mut buf, 0, v).unwrap();
        assert_eq!(get_word(&buf, 0).unwrap(), v);
    }
}

#[test]
fn int_round_trip_exhaustive() {
    let mut buf = [0u8; 2];
    for v in i16::MIN..=i16::MAX {
        set_int(&mut buf, 0, v).unwrap();
        assert_eq!(get_int(&buf, 0).unwrap(), v);
    }
}

#[test]
fn dint_round_trip_sampled() {
    let mut buf = [0u8; 4];
    for v in [i32::MIN, -12345678, -1, 0, 1, 42, 0x1234567, i32::MAX] {
        set_dint(&mut buf, 0, v).unwrap();
        assert_eq!(get_dint(&buf, 0).unwrap(), v);
    }
}

#[test]
fn dword_round_trip_sampled() {
    let mut buf = [0u8; 4];
    for v in [0u32, 1, 0xFF, 0x12345678, 0x80000000, u32::MAX] {
        s7_codec::set_dword(&mut buf, 0, v).unwrap();
        assert_eq!(get_dword(&buf, 0).unwrap(), v);
    }
}

#[test]
fn lint_round_trip_sampled() {
    let mut buf = [0u8; 8];
    for v in [i64::MIN, -58, -1, 0, 1, 0x1234567890ABCDEF, i64::MAX] {
        set_lint(&mut buf, 0, v).unwrap();
        assert_eq!(get_lint(&buf, 0).unwrap(), v);
    }
}

#[test]
fn lword_round_trip_sampled() {
    let mut buf = [0u8; 8];
    for v in [0u64, 1, 0x1234567890ABCDEF, 0x8000000000000000, u64::MAX] {
        s7_codec::set_lword(&mut buf, 0, v).unwrap();
        assert_eq!(get_lword(&buf, 0).unwrap(), v);
    }
}

#[test]
fn real_round_trip() {
    let mut buf = [0u8; 4];
    s7_codec::set_dword(&mut buf, 0, 13.14f32.to_bits()).unwrap();
    assert_eq!(f32::from_bits(get_dword(&buf, 0).unwrap()), 13.14);
}

#[test]
fn bounds_errors() {
    let buf = [0u8; 3];
    assert_eq!(get_word(&buf, 2), Err(CodecError::Bounds));
    assert_eq!(get_dword(&buf, 0), Err(CodecError::Bounds));
    assert_eq!(get_lword(&buf, 0), Err(CodecError::Bounds));
    assert_eq!(get_byte(&buf, 3), Err(CodecError::Bounds));
    assert_eq!(get_bool(&buf, 3, 0), Err(CodecError::Bounds));
    let mut out = [0u8; 3];
    assert_eq!(set_word(&mut out, 2, 1), Err(CodecError::Bounds));
    assert_eq!(out, [0u8; 3]);
    assert_eq!(set_char(&mut out, 3, 'a'), Err(CodecError::Bounds));
}

#[test]
fn string_capacity_violation() {
    let bytearray = [5, 6, b'a', b'b', b'c', b'd', b'e', b'f'];
    assert_eq!(get_string(&bytearray, 0), Err(CodecError::Format));
}

#[test]
fn string_capacity_over_254() {
    let bytearray = [255, 1, b'a'];
    assert_eq!(get_string(&bytearray, 0), Err(CodecError::Format));
}

#[test]
fn string_truncated_data() {
    let bytearray = [5, 4, b'h', b'i'];
    assert_eq!(get_string(&bytearray, 0), Err(CodecError::Bounds));
}

#[test]
fn string_invalid_utf8_data() {
    // A lone leading byte of a two-byte sequence is not valid UTF-8.
    let bytearray = [2, 1, 0xC3];
    assert_eq!(get_string(&bytearray, 0), Err(CodecError::Format));
}

#[test]
fn string_utf8_data() {
    // A complete two-byte UTF-8 character decodes.
    let bytearray = [2, 2, 0xC3, 0xA7];
    assert_eq!(get_string(&bytearray, 0).unwrap(), "\u{e7}");
}

#[test]
fn string_encode_decode() {
    let mut buf = [0u8; 10];
    set_string(&mut buf, 1, 7, "hello").unwrap();
    assert_eq!(buf[1], 7);
    assert_eq!(buf[2], 5);
    assert_eq!(&buf[3..8], b"hello");
    assert_eq!(get_string(&buf, 1).unwrap(), "hello");
}

#[test]
fn string_encode_too_long() {
    let mut buf = [0u8; 10];
    assert_eq!(set_string(&mut buf, 0, 3, "hello"), Err(CodecError::Format));
    assert_eq!(buf, [0u8; 10]);
}

#[test]
fn string_encode_utf8_round_trip() {
    let mut buf = [0u8; 10];
    set_string(&mut buf, 0, 8, "héllo").unwrap();
    assert_eq!(buf[0], 8);
    assert_eq!(buf[1], 6);
    assert_eq!(get_string(&buf, 0).unwrap(), "héllo");
}

#[test]
fn fstring_padding_trimmed() {
    let bytearray = b"ab   ";
    assert_eq!(get_fstring(bytearray, 0, 5, true).unwrap(), "ab");
    assert_eq!(get_fstring(bytearray, 0, 5, false).unwrap(), "ab   ");
}

#[test]
fn fstring_invalid_utf8() {
    // A bare continuation byte is not valid UTF-8.
    let bytearray = [b'a', 0x80];
    assert_eq!(get_fstring(&bytearray, 0, 2, false), Err(CodecError::Format));
}

#[test]
fn fstring_utf8_trimmed() {
    let bytearray = [0xC3, 0xA7, 0x20];
    assert_eq!(get_fstring(&bytearray, 0, 3, true).unwrap(), "\u{e7}");
    assert_eq!(get_fstring(&bytearray, 0, 3, false).unwrap(), "\u{e7} ");
}

#[test]
fn fstring_encode_pads_with_spaces() {
    let mut buf = [0xFFu8; 6];
    set_fstring(&mut buf, 1, 4, "ab").unwrap();
    assert_eq!(buf, [0xFF, b'a', b'b', b' ', b' ', 0xFF]);
    assert_eq!(get_fstring(&buf, 1, 4, true).unwrap(), "ab");
}

#[test]
fn fstring_encode_too_long() {
    let mut buf = [0u8; 4];
    assert_eq!(set_fstring(&mut buf, 0, 2, "abc"), Err(CodecError::Format));
}

#[test]
fn s5time_time_bases() {
    // Selector 0: 10 microsecond base, magnitude 100.
    assert_eq!(get_s5time(&[0x01, 0x00], 0).unwrap(), "1ms");
    // Selector 2: 1000 microsecond base, magnitude 123.
    assert_eq!(get_s5time(&[0x21, 0x23], 0).unwrap(), "123ms");
    // Selector 3: 10000 microsecond base, magnitude 1.
    assert_eq!(get_s5time(&[0x30, 0x01], 0).unwrap(), "10ms");
    // Selector 0, magnitude 5: below one millisecond.
    assert_eq!(get_s5time(&[0x00, 0x05], 0).unwrap(), "50us");
    // Zero duration.
    assert_eq!(get_s5time(&[0x00, 0x00], 0).unwrap(), "0us");
}

#[test]
fn s5time_fractions() {
    // Selector 0, magnitude 123: 1230 microseconds.
    assert_eq!(get_s5time(&[0x01, 0x23], 0).unwrap(), "1.23ms");
    // Selector 1, magnitude 105: 10500 microseconds.
    assert_eq!(get_s5time(&[0x11, 0x05], 0).unwrap(), "10.5ms");
    // Selector 3, magnitude 100: exactly one second.
    assert_eq!(get_s5time(&[0x31, 0x00], 0).unwrap(), "1s");
    // Selector 3, magnitude 999: the largest encodable duration.
    assert_eq!(get_s5time(&[0x39, 0x99], 0).unwrap(), "9.99s");
}

#[test]
fn s5time_invalid_selector() {
    assert_eq!(get_s5time(&[0x42, 0x34], 0), Err(CodecError::Format));
}

#[test]
fn s5time_invalid_bcd() {
    assert_eq!(get_s5time(&[0x1A, 0x00], 0), Err(CodecError::Format));
    assert_eq!(get_s5time(&[0x11, 0xA0], 0), Err(CodecError::Format));
}

#[test]
fn tod_range_rejection() {
    let at_limit = 86_400_000u32.to_be_bytes();
    assert_eq!(get_tod(&at_limit, 0), Err(CodecError::Range));
    let just_below = 86_399_999u32.to_be_bytes();
    assert_eq!(get_tod(&just_below, 0).unwrap(), 86_399_999);
}

#[test]
fn date_range_rejection() {
    let mut buf = [0u8; 2];
    let before = Date { year: 1989, month: 12, day: 31 };
    assert_eq!(set_date(&mut buf, 0, before), Err(CodecError::Range));
    let after = Date { year: 2169, month: 1, day: 1 };
    assert_eq!(set_date(&mut buf, 0, after), Err(CodecError::Range));
    let invalid = Date { year: 2024, month: 2, day: 30 };
    assert_eq!(set_date(&mut buf, 0, invalid), Err(CodecError::Range));
    assert_eq!(buf, [0u8; 2]);
}

#[test]
fn date_decode_range() {
    // Day 65378 is 2168-12-31, the last encodable date.
    assert_eq!(
        get_date(&65378u16.to_be_bytes(), 0).unwrap(),
        Date { year: 2168, month: 12, day: 31 }
    );
    assert_eq!(get_date(&65379u16.to_be_bytes(), 0), Err(CodecError::Range));
}

#[test]
fn date_round_trip() {
    let mut buf = [0u8; 2];
    for d in [
        Date { year: 1990, month: 1, day: 1 },
        Date { year: 2000, month: 2, day: 29 },
        Date { year: 2024, month: 3, day: 27 },
        Date { year: 2100, month: 3, day: 1 },
        Date { year: 2168, month: 12, day: 31 },
    ] {
        set_date(&mut buf, 0, d).unwrap();
        assert_eq!(get_date(&buf, 0).unwrap(), d);
    }
}

#[test]
fn dt_century_pivot() {
    let dt23 = get_date_time_object(&[0x23, 0x01, 0x01, 0x00, 0x00, 0x00, 0x00, 0x00], 0).unwrap();
    assert_eq!(dt23.year, 2023);
    let dt95 = get_date_time_object(&[0x95, 0x01, 0x01, 0x00, 0x00, 0x00, 0x00, 0x00], 0).unwrap();
    assert_eq!(dt95.year, 1995);
}

#[test]
fn dt_fields() {
    let dt = get_date_time_object(&[0x24, 0x12, 0x12, 0x12, 0x30, 0x30, 0x30, 0x00], 0).unwrap();
    assert_eq!(
        dt,
        DateTime {
            year: 2024,
            month: 12,
            day: 12,
            hour: 12,
            minute: 30,
            second: 30,
            millisecond: 300,
        }
    );
}

#[test]
fn dt_invalid_fields() {
    // Month 13 is valid BCD but not a calendar month.
    assert_eq!(
        get_date_time_object(&[0x24, 0x13, 0x01, 0x00, 0x00, 0x00, 0x00, 0x00], 0),
        Err(CodecError::Range)
    );
    // A nibble of 10 or more is malformed BCD.
    assert_eq!(
        get_date_time_object(&[0x2A, 0x01, 0x01, 0x00, 0x00, 0x00, 0x00, 0x00], 0),
        Err(CodecError::Format)
    );
    // February 30th does not exist.
    assert_eq!(
        get_dt(&[0x24, 0x02, 0x30, 0x00, 0x00, 0x00, 0x00, 0x00], 0),
        Err(CodecError::Range)
    );
}

#[test]
fn dt_display_without_millis() {
    let buf = [0x99, 0x01, 0x02, 0x03, 0x04, 0x05, 0x00, 0x00];
    assert_eq!(get_dt(&buf, 0).unwrap(), "1999-01-02 03:04:05 UTC");
}

#[test]
fn time_negative() {
    let minus_one_ms = (-1i32).to_be_bytes();
    assert_eq!(get_time(&minus_one_ms, 0).unwrap(), "-0:00:00:00.001");
}

#[test]
fn time_extremes() {
    assert_eq!(get_time(&i32::MIN.to_be_bytes(), 0).unwrap(), "-24:20:31:23.648");
    assert_eq!(get_time(&0i32.to_be_bytes(), 0).unwrap(), "0:00:00:00.000");
}

#[test]
fn parse_time_negative() {
    assert_eq!(parse_time_string("-1:2:3:4.5").unwrap(), -93_784_005);
}

#[test]
fn parse_time_finds_match_inside_text() {
    // The scan is a search: the pattern may start after other characters.
    assert_eq!(parse_time_string("t=0:0:0:2.5;").unwrap(), 2005);
}

#[test]
fn parse_time_rejects_all_errors() {
    assert_eq!(parse_time_string(""), Err(CodecError::Parse));
    assert_eq!(parse_time_string("1:2:3"), Err(CodecError::Parse));
    assert_eq!(parse_time_string("a:b:c:d.e"), Err(CodecError::Parse));
    // Matched, but beyond what a signed 64-bit count can hold.
    assert_eq!(
        parse_time_string("99999999999999999999:0:0:0.0"),
        Err(CodecError::Range)
    );
}

#[test]
fn set_time_range_rejection() {
    let mut buf = [0u8; 4];
    // 30 days exceed the signed 32-bit millisecond range.
    assert_eq!(set_time(&mut buf, 0, "30:0:0:0.0"), Err(CodecError::Range));
    assert_eq!(set_time(&mut buf, 0, "junk"), Err(CodecError::Parse));
    assert_eq!(buf, [0u8; 4]);
}

#[test]
fn set_time_negative() {
    let mut buf = [0u8; 4];
    set_time(&mut buf, 0, "-0:0:0:1:0.0").unwrap();
    assert_eq!(buf, (-1000i32).to_be_bytes());
}

#[test]
fn time_encode_decode() {
    let mut buf = [0u8; 4];
    set_time(&mut buf, 0, "1:02:03:04.567").unwrap();
    assert_eq!(get_time(&buf, 0).unwrap(), "1:02:03:04.567");
}

#[test]
fn bcd_conversion() {
    assert_eq!(bcd_to_byte(0x24), 24);
    assert_eq!(bcd_to_byte(0x99), 99);
    assert_eq!(bcd_to_byte(0x00), 0);
}

#[test]
fn model_values() {
    assert_eq!(ConnType::PG.value(), 1);
    assert_eq!(ConnType::OP.value(), 2);
    assert_eq!(ConnType::S7Basic(0x1234).value(), 0x1234);
    assert_eq!(MaskKind::Event.value(), 0);
    assert_eq!(MaskKind::Log.value(), 1);
    assert_eq!(AreaCode::S7AreaDB.value(), 5);
    assert_eq!(AreaTable::S7AreaDB.value(), 0x84);
    assert_eq!(AreaTable::S7AreaTM.value(), 0x1d);
    assert_eq!(WordLenTable::S7WLReal.value(), 0x08);
    assert_eq!(WordLenTable::S7WLCounter.value(), 0x1c);
    assert_eq!(BlockType::BlockSFB.value(), 0x46);
    assert_eq!(InternalParam::KeepAliveTime.value(), 15);
}

#[test]
fn offsets_leave_neighbours_alone() {
    let mut buf = [0xEEu8; 6];
    set_word(&mut buf, 2, 0x0102).unwrap();
    assert_eq!(buf, [0xEE, 0xEE, 0x01, 0x02, 0xEE, 0xEE]);
    assert_eq!(get_word(&buf, 2).unwrap(), 0x0102);
    assert_eq!(get_uint(&buf, 2).unwrap(), 0x0102);
    assert_eq!(get_int(&buf, 2).unwrap(), 0x0102);
}

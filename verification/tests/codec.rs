use s7_codec::{
    get_bool, get_byte, get_date, get_dint, get_dt, get_dword, get_fstring, get_int, get_lint,
    get_lword, get_s5time, get_sint, get_string, get_time, get_tod, get_udint, get_uint,
    get_ulint, get_usint, get_word, parse_time_string, set_bool, set_byte, set_char, set_date,
    set_dint, set_dword, set_int, set_lword, set_sint, set_time, set_udint, set_uint, set_usint,
    set_word, Date,
};

#[test]
fn test_get_bool() {
    let bytearray = [0b10101010];
    assert!(get_bool(&bytearray, 0, 1).unwrap());
    assert!(!get_bool(&bytearray, 0, 0).unwrap());
}

#[test]
fn test_get_byte() {
    let bytearray = [0x12];
    assert_eq!(get_byte(&bytearray, 0).unwrap(), 0x12);
}

#[test]
fn test_get_word() {
    let bytearray = [0x12, 0x34];
    assert_eq!(get_word(&bytearray, 0).unwrap(), 0x1234);
}

#[test]
fn test_get_int() {
    let bytearray = [0xFF, 0xD6];
    assert_eq!(get_int(&bytearray, 0).unwrap(), -42);
}

#[test]
fn test_get_uint() {
    let bytearray = [0x12, 0x34];
    assert_eq!(get_uint(&bytearray, 0).unwrap(), 0x1234);
}

#[test]
fn test_get_real() {
    // The IEEE-754 bit pattern of 10.0f32, big-endian; the float itself is
    // reinterpreted from the decoded 32-bit word.
    let bytearray = [0x41, 0x20, 0x00, 0x00];
    assert_eq!(f32::from_bits(get_dword(&bytearray, 0).unwrap()), 10.0);
}

#[test]
fn test_get_fstring() {
    let bytearray = b"hello";
    assert_eq!(get_fstring(bytearray, 0, 5, true).unwrap(), "hello");
}

#[test]
fn test_get_string() {
    let bytearray = [5, 4, b'h', b'e', b'l', b'l', b'o'];
    assert_eq!(get_string(&bytearray, 0).unwrap(), "hell");
}

#[test]
fn test_get_dword() {
    let bytearray = [0x12, 0x34, 0x56, 0x78];
    assert_eq!(get_dword(&bytearray, 0).unwrap(), 0x12345678);
}

#[test]
fn test_get_dint() {
    let bytearray = [0xFF, 0xFF, 0xFF, 0xC6];
    assert_eq!(get_dint(&bytearray, 0).unwrap(), -58);
}

#[test]
fn test_get_udint() {
    let bytearray = [0x12, 0x34, 0x56, 0x78];
    assert_eq!(get_udint(&bytearray, 0).unwrap(), 0x12345678);
}

#[test]
fn test_get_s5time() {
    // Selector 1 is the 100 microsecond base; BCD magnitude 234 gives
    // 23400 microseconds.
    let bytearray = [0x12, 0x34];
    assert_eq!(get_s5time(&bytearray, 0).unwrap(), "23.4ms");
}

#[test]
fn test_get_dt() {
    let bytearray = [0x24, 0x12, 0x12, 0x12, 0x30, 0x30, 0x30, 0x00];
    assert_eq!(get_dt(&bytearray, 0).unwrap(), "2024-12-12 12:30:30.300 UTC");
}

#[test]
fn test_get_time() {
    let bytearray = [0x7f, 0xff, 0xff, 0xff];
    assert_eq!(get_time(&bytearray, 0).unwrap(), "24:20:31:23.647");
}

#[test]
fn test_get_usint() {
    let bytearray = [0x12];
    assert_eq!(get_usint(&bytearray, 0).unwrap(), 0x12);
}

#[test]
fn test_get_sint() {
    let bytearray = [0xF6];
    assert_eq!(get_sint(&bytearray, 0).unwrap(), -10);
}

#[test]
fn test_get_lint() {
    let bytearray = [0xFF, 0xFF, 0xFF, 0xFF, 0xFF, 0xFF, 0xFF, 0xC6];
    assert_eq!(get_lint(&bytearray, 0).unwrap(), -58);
}

#[test]
fn test_get_lreal() {
    // The IEEE-754 bit pattern of 10.0f64, big-endian.
    let bytearray = [0x40, 0x24, 0x00, 0x00, 0x00, 0x00, 0x00, 0x00];
    assert_eq!(f64::from_bits(get_lword(&bytearray, 0).unwrap()), 10.0);
}

#[test]
fn test_get_lword() {
    let bytearray = [0x12, 0x34, 0x56, 0x78, 0x90, 0xAB, 0xCD, 0xEF];
    assert_eq!(get_lword(&bytearray, 0).unwrap(), 0x1234567890ABCDEF);
}

#[test]
fn test_get_ulint() {
    let bytearray = [0x12, 0x34, 0x56, 0x78, 0x90, 0xAB, 0xCD, 0xEF];
    assert_eq!(get_ulint(&bytearray, 0).unwrap(), 0x1234567890ABCDEF);
}

#[test]
fn test_get_tod() {
    let bytearray = [0x00, 0x01, 0x51, 0x80];
    assert_eq!(get_tod(&bytearray, 0).unwrap(), 86400);
}

#[test]
fn test_get_date() {
    // 2024-01-01 is 12418 days after 1990-01-01.
    let days_since_1990: u16 = 12418;
    let bytearray = days_since_1990.to_be_bytes();
    assert_eq!(
        get_date(&bytearray, 0).unwrap(),
        Date { year: 2024, month: 1, day: 1 }
    );
}

#[test]
fn test_set_bool() {
    let mut data = vec![0; 1];
    set_bool(&mut data, 0, 0, true).unwrap();
    assert_eq!(data, vec![1]);
    set_bool(&mut data, 0, 0, false).unwrap();
    assert_eq!(data, vec![0]);
}

#[test]
fn test_set_byte() {
    let mut data = vec![0; 1];
    set_byte(&mut data, 0, 255).unwrap();
    assert_eq!(data, vec![255]);
}

#[test]
fn test_set_word() {
    let mut data = vec![0; 2];
    set_word(&mut data, 0, 65535).unwrap();
    assert_eq!(data, vec![255, 255]);
}

#[test]
fn test_set_int() {
    let mut data = vec![0; 2];
    set_int(&mut data, 0, -32768).unwrap();
    assert_eq!(data, vec![128, 0]);
}

#[test]
fn test_set_date() {
    let mut data = vec![0; 2];
    let date = Date { year: 2024, month: 3, day: 27 };
    set_date(&mut data, 0, date).unwrap();
    assert_eq!(data, vec![48, 216]);
}

#[test]
fn test_set_uint() {
    let mut bytearray = [0u8; 10];
    set_uint(&mut bytearray, 2, 0x1234).unwrap();
    assert_eq!(bytearray[2], 0x12);
    assert_eq!(bytearray[3], 0x34);
}

#[test]
fn test_set_real() {
    // The float is staged as its IEEE-754 bit pattern and written as a
    // 32-bit big-endian word.
    let mut bytearray = [0u8; 10];
    set_dword(&mut bytearray, 2, 12.34f32.to_bits()).unwrap();
    assert_eq!(bytearray[2..6], 12.34f32.to_be_bytes());
}

#[test]
fn test_set_dword() {
    let mut bytearray = [0u8; 10];
    set_dword(&mut bytearray, 2, 0x12345678).unwrap();
    assert_eq!(bytearray[2], 0x12);
    assert_eq!(bytearray[3], 0x34);
    assert_eq!(bytearray[4], 0x56);
    assert_eq!(bytearray[5], 0x78);
}

#[test]
fn test_set_dint() {
    let mut bytearray = [0u8; 10];
    set_dint(&mut bytearray, 2, -12345678).unwrap();
    assert_eq!(bytearray[2..6], (-12345678i32).to_be_bytes());
}

#[test]
fn test_set_udint() {
    let mut bytearray = [0u8; 10];
    set_udint(&mut bytearray, 2, 0x12345678).unwrap();
    assert_eq!(bytearray[2], 0x12);
    assert_eq!(bytearray[3], 0x34);
    assert_eq!(bytearray[4], 0x56);
    assert_eq!(bytearray[5], 0x78);
}

#[test]
fn test_set_time() {
    let mut bytearray = [0u8; 10];
    set_time(&mut bytearray, 2, "0:0:0:1:0.0").unwrap();
    assert_eq!(bytearray[2..6], 1000i32.to_be_bytes());
}

#[test]
fn test_set_usint() {
    let mut bytearray = [0u8; 10];
    set_usint(&mut bytearray, 2, 0x12).unwrap();
    assert_eq!(bytearray[2], 0x12);
}

#[test]
fn test_set_sint() {
    let mut bytearray = [0u8; 10];
    set_sint(&mut bytearray, 2, -5).unwrap();
    assert_eq!(bytearray[2], (-5i8) as u8);
}

#[test]
fn test_set_lreal() {
    // The float is staged as its IEEE-754 bit pattern and written as a
    // 64-bit big-endian word.
    let mut bytearray = [0u8; 10];
    set_lword(&mut bytearray, 2, 12.34f64.to_bits()).unwrap();
    assert_eq!(bytearray[2..10], 12.34f64.to_be_bytes());
}

#[test]
fn test_set_char() {
    let mut bytearray = [0u8; 10];
    set_char(&mut bytearray, 2, 'A').unwrap();
    assert_eq!(bytearray[2], b'A');
}

#[test]
fn test_set_char_non_ascii() {
    let mut bytearray = [0u8; 10];
    let result = set_char(&mut bytearray, 2, 'ç');
    assert!(result.is_err());
}

#[test]
fn test_parse_time_string_valid() {
    let millis = parse_time_string("0:0:0:1:0.0").unwrap();
    assert_eq!(millis, 1000);
}

#[test]
fn test_parse_time_string_invalid() {
    let result = parse_time_string("invalid time");
    assert!(result.is_err());
}

use source_demo_tool::parse_tools::{
    parse_cstr, parse_f32_bits, parse_f64_bits, parse_fixed_width_string, parse_i32, parse_i64, parse_u16,
    parse_u32, parse_u8, parse_varint, ParseVarIntExit,
};
use source_demo_tool::reader::ByteReader;

const SHORT: &str = "couldn't read requested bytes from buffer";

#[test]
fn integers_are_little_endian() {
    let data = [0x01u8, 0x02, 0x03, 0x04, 0x05, 0x06, 0x07, 0x08];
    let mut r = ByteReader::new(&data);
    assert_eq!(parse_u8(&mut r), Ok(0x01));
    assert_eq!(parse_u16(&mut r), Ok(0x0302));
    assert_eq!(parse_u32(&mut r), Ok(0x0706_0504));
    assert_eq!(r.buf_len(), 1);
    let mut r = ByteReader::new(&data);
    assert_eq!(parse_i64(&mut r), Ok(0x0807_0605_0403_0201));
    assert_eq!(r.buf_len(), 0);
}

#[test]
fn signed_integers() {
    let data = [0xffu8, 0xff, 0xff, 0xff, 0xfe, 0xff, 0xff, 0xff, 0xff, 0xff, 0xff, 0xff];
    let mut r = ByteReader::new(&data);
    assert_eq!(parse_i32(&mut r), Ok(-1));
    assert_eq!(parse_i64(&mut r), Ok(-2));
}

#[test]
fn short_reads_fail_and_consume_everything() {
    let data = [1u8, 2, 3];
    let mut r = ByteReader::new(&data);
    assert_eq!(parse_u32(&mut r), Err(SHORT));
    assert_eq!(r.buf_len(), 0);
    let mut r = ByteReader::new(&data);
    assert_eq!(parse_i32(&mut r), Err(SHORT));
    let mut r = ByteReader::new(&data[..1]);
    assert_eq!(parse_u16(&mut r), Err(SHORT));
    let empty: [u8; 0] = [];
    let mut r = ByteReader::new(&empty);
    assert_eq!(parse_u8(&mut r), Err("couldn't read requested byte from buffer"));
}

#[test]
fn float_bits() {
    let one_f32 = 1.5f32.to_le_bytes();
    let mut r = ByteReader::new(&one_f32);
    assert_eq!(parse_f32_bits(&mut r).map(f32::from_bits), Ok(1.5f32));
    let x = (-2.25f64).to_le_bytes();
    let mut r = ByteReader::new(&x);
    assert_eq!(parse_f64_bits(&mut r).map(f64::from_bits), Ok(-2.25f64));
    let mut r = ByteReader::new(&x[..7]);
    assert_eq!(parse_f64_bits(&mut r), Err(SHORT));
}

#[test]
fn fixed_width_string_stops_at_nul() {
    let data = *b"abc\0def\0xy";
    let mut r = ByteReader::new(&data);
    assert_eq!(parse_fixed_width_string(&mut r, 8), Ok(String::from("abc")));
    assert_eq!(r.buf_len(), 2);
    let mut r = ByteReader::new(&data);
    assert_eq!(parse_fixed_width_string(&mut r, 11), Err(SHORT));
}

#[test]
fn fixed_width_string_without_nul_keeps_all() {
    let data = *b"abcd";
    let mut r = ByteReader::new(&data);
    assert_eq!(parse_fixed_width_string(&mut r, 4), Ok(String::from("abcd")));
}

#[test]
fn fixed_width_string_rejects_bad_utf8() {
    let data = [0xffu8, 0x41, 0, 0];
    let mut r = ByteReader::new(&data);
    assert_eq!(parse_fixed_width_string(&mut r, 4), Err("couldn't parse bytes as valid utf-8 string"));
}

#[test]
fn cstr_reads_up_to_the_terminator() {
    let data = *b"hello\0world\0";
    let mut r = ByteReader::new(&data);
    assert_eq!(parse_cstr(&mut r), Ok(String::from("hello")));
    assert_eq!(parse_cstr(&mut r), Ok(String::from("world")));
    assert_eq!(r.buf_len(), 0);
}

#[test]
fn cstr_without_terminator_fails() {
    let data = *b"hello";
    let mut r = ByteReader::new(&data);
    assert!(parse_cstr(&mut r).is_err());
}

#[test]
fn varint_values() {
    let data = [0x96u8, 0x01, 0x05];
    let mut r = ByteReader::new(&data);
    assert!(matches!(parse_varint(&mut r), ParseVarIntExit::Value(150)));
    assert!(matches!(parse_varint(&mut r), ParseVarIntExit::Value(5)));
    assert!(matches!(parse_varint(&mut r), ParseVarIntExit::BufferErr(_)));
}

#[test]
fn varint_max_u64() {
    let data = [0xffu8, 0xff, 0xff, 0xff, 0xff, 0xff, 0xff, 0xff, 0xff, 0x01];
    let mut r = ByteReader::new(&data);
    assert!(matches!(parse_varint(&mut r), ParseVarIntExit::Value(u64::MAX)));
}

#[test]
fn varint_too_long() {
    let data = [0x80u8; 11];
    let mut r = ByteReader::new(&data);
    match parse_varint(&mut r) {
        ParseVarIntExit::TooLong(e, bytes) => {
            assert_eq!(e.details, "too long");
            assert_eq!(bytes, [0x80u8; 10]);
        },
        _ => panic!("expected a too long varint"),
    }
    assert_eq!(r.buf_len(), 1);
}

#[test]
fn varint_truncated() {
    let data = [0x80u8, 0x80];
    let mut r = ByteReader::new(&data);
    assert!(matches!(parse_varint(&mut r), ParseVarIntExit::BufferErr(_)));
    assert_eq!(r.buf_len(), 0);
}

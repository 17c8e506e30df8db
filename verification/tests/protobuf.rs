use source_demo_tool::protobuf_message::{FromReadableErr, ProtobufMessage, WireMessage};
use source_demo_tool::reader::ByteReader;

#[test]
fn reads_a_varint_field() {
    let data = [0x08u8, 0x96, 0x01];
    let mut r = ByteReader::new(&data);
    let m = ProtobufMessage::from_readable(&mut r).unwrap();
    assert_eq!(m, ProtobufMessage { message: WireMessage::VarInt(150), field_number: 1 });
    assert_eq!(r.buf_len(), 0);
}

#[test]
fn reads_a_length_field() {
    let data = [0x12u8, 0x03, b'a', b'b', b'c', 0x99];
    let mut r = ByteReader::new(&data);
    let m = ProtobufMessage::from_readable(&mut r).unwrap();
    assert_eq!(m, ProtobufMessage { message: WireMessage::Length(b"abc".to_vec()), field_number: 2 });
    assert_eq!(r.buf_len(), 1);
}

#[test]
fn reads_a_fixed32_field() {
    let data = [0x1du8, 0x01, 0x02, 0x03, 0x04];
    let mut r = ByteReader::new(&data);
    let m = ProtobufMessage::from_readable(&mut r).unwrap();
    assert_eq!(m, ProtobufMessage { message: WireMessage::Fixed32(0x0403_0201), field_number: 3 });
}

#[test]
fn field_number_keeps_eight_bits() {
    // tag = (300 << 3) | 0, the field number 300 truncated to 8 bits is 44
    let data = [0xe0u8, 0x12, 0x07];
    let mut r = ByteReader::new(&data);
    let m = ProtobufMessage::from_readable(&mut r).unwrap();
    assert_eq!(m.field_number, 44);
    assert_eq!(m.message, WireMessage::VarInt(7));
}

#[test]
fn length_past_the_end_is_a_buffer_error() {
    let data = [0x12u8, 0x05, b'a'];
    let mut r = ByteReader::new(&data);
    match ProtobufMessage::from_readable(&mut r) {
        Err(FromReadableErr::BufferErr(e)) => assert_eq!(e.details, "length data read"),
        other => panic!("unexpected {:?}", other),
    }
    assert_eq!(r.buf_len(), 0);
}

#[test]
fn unsupported_wire_type() {
    let data = [0x0bu8, 0x00];
    let mut r = ByteReader::new(&data);
    match ProtobufMessage::from_readable(&mut r) {
        Err(FromReadableErr::UnsupportedWireType(e, wt)) => {
            assert_eq!(e.details, "bad wire type");
            assert_eq!(wt, 3);
        },
        other => panic!("unexpected {:?}", other),
    }
}

#[test]
fn bad_tag_is_invalid() {
    let data = [0x80u8];
    let mut r = ByteReader::new(&data);
    match ProtobufMessage::from_readable(&mut r) {
        Err(FromReadableErr::InvalidOrCorrupt(e)) => assert_eq!(e.details, "bad tag varint read"),
        other => panic!("unexpected {:?}", other),
    }
}

#[test]
fn short_fixed32_is_invalid() {
    let data = [0x1du8, 0x01, 0x02];
    let mut r = ByteReader::new(&data);
    match ProtobufMessage::from_readable(&mut r) {
        Err(FromReadableErr::InvalidOrCorrupt(e)) => {
            assert_eq!(e.details, "couldn't read requested bytes from buffer")
        },
        other => panic!("unexpected {:?}", other),
    }
}

#[test]
fn many_from_vec_reads_every_field() {
    let data = vec![0x08u8, 0x01, 0x12, 0x01, b'x', 0x18, 0x02];
    let ms = ProtobufMessage::many_from_vec(&data).unwrap();
    assert_eq!(
        ms,
        vec![
            ProtobufMessage { message: WireMessage::VarInt(1), field_number: 1 },
            ProtobufMessage { message: WireMessage::Length(vec![b'x']), field_number: 2 },
            ProtobufMessage { message: WireMessage::VarInt(2), field_number: 3 },
        ]
    );
}

#[test]
fn many_from_vec_fails_on_a_bad_field() {
    let data = vec![0x08u8, 0x01, 0x0b];
    assert!(matches!(
        ProtobufMessage::many_from_vec(&data),
        Err(FromReadableErr::UnsupportedWireType(_, 3))
    ));
}

#[test]
fn many_from_vec_of_nothing() {
    assert_eq!(ProtobufMessage::many_from_vec(&Vec::new()).unwrap(), Vec::new());
}

#[test]
fn fields_of_joined_buffers() {
    let a = vec![0x08u8, 0x96, 0x01, 0x12, 0x02, b'h', b'i'];
    let b = vec![0x1du8, 1, 0, 0, 0, 0x20, 0x05];
    let mut joined = a.clone();
    joined.extend(&b);
    let mut expected = ProtobufMessage::many_from_vec(&a).unwrap();
    expected.extend(ProtobufMessage::many_from_vec(&b).unwrap());
    assert_eq!(ProtobufMessage::many_from_vec(&joined).unwrap(), expected);
    assert_eq!(expected.len(), 4);
}

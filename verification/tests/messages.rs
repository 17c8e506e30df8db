use source_demo_tool::demo_file::packet::netmessage::net_message_table;
use source_demo_tool::demo_file::packet::protobuf_value::ProtobufValue;
use source_demo_tool::demo_file::packet::usermessage::user_message_table;
use source_demo_tool::demo_file::packet::ParseMessageErr;
use source_demo_tool::message_schema::{named_varint, DecodedMessage};
use source_demo_tool::reader::ByteReader;

fn varint(mut n: u64) -> Vec<u8> {
    let mut out = Vec::new();
    loop {
        let b = (n & 0x7f) as u8;
        n >>= 7;
        if n == 0 {
            out.push(b);
            return out;
        }
        out.push(b | 0x80);
    }
}

fn field_varint(num: u64, v: u64) -> Vec<u8> {
    let mut out = varint(num << 3);
    out.extend(varint(v));
    out
}

fn field_bytes(num: u64, b: &[u8]) -> Vec<u8> {
    let mut out = varint((num << 3) | 2);
    out.extend(varint(b.len() as u64));
    out.extend_from_slice(b);
    out
}

fn framed(id: u64, body: &[u8]) -> Vec<u8> {
    let mut out = varint(id);
    out.extend(varint(body.len() as u64));
    out.extend_from_slice(body);
    out
}

fn tick_body(with_all: bool) -> Vec<u8> {
    let mut body = field_varint(1, 1234);
    if with_all {
        body.extend(field_varint(4, 5));
    }
    body.extend(field_varint(5, 6));
    body.extend(field_varint(6, 7));
    body
}

fn value_of<'a>(m: &'a DecodedMessage, name: &str) -> &'a ProtobufValue {
    &m.fields.iter().find(|f| f.0 == name).unwrap().1
}

#[test]
fn decodes_a_tick_message() {
    let net = net_message_table();
    let data = framed(4, &tick_body(true));
    let mut r = ByteReader::new(&data);
    let (m, w) = net.parse_from_reader(&mut r).unwrap();
    assert_eq!(m.id, 4);
    assert_eq!(m.name, "Tick");
    assert_eq!(named_varint(&m.fields, "current_tick"), Some(1234));
    assert_eq!(named_varint(&m.fields, "host_computation_time"), Some(5));
    assert_eq!(m.fields.len(), 4);
    assert!(!w.has_warnings());
    assert_eq!(r.buf_len(), 0);
}

#[test]
fn missing_field_is_a_warning() {
    let net = net_message_table();
    let data = framed(4, &tick_body(false));
    let mut r = ByteReader::new(&data);
    let (m, w) = net.parse_from_reader(&mut r).unwrap();
    assert!(matches!(value_of(&m, "host_computation_time"), ProtobufValue::Absent));
    assert_eq!(w.missing_fields, vec![(4u8, "host_computation_time")]);
    assert!(w.has_warnings());
}

#[test]
fn unknown_field_is_a_warning() {
    let net = net_message_table();
    let mut body = tick_body(true);
    body.extend(field_varint(9, 1));
    let data = framed(4, &body);
    let mut r = ByteReader::new(&data);
    let (_, w) = net.parse_from_reader(&mut r).unwrap();
    assert_eq!(w.unknown_fields.len(), 1);
    assert_eq!(w.unknown_fields[0].field_number, 9);
    assert!(w.has_warnings());
}

#[test]
fn unknown_message_id() {
    let net = net_message_table();
    let data = framed(200, &[]);
    let mut r = ByteReader::new(&data);
    assert!(matches!(net.parse_from_reader(&mut r), Err(ParseMessageErr::UnknownCommand(200))));
}

#[test]
fn wrong_wire_type_is_invalid() {
    let net = net_message_table();
    // StringCmd (5) declares `command` as a string; a varint is refused
    let data = framed(5, &field_varint(1, 3));
    let mut r = ByteReader::new(&data);
    match net.parse_from_reader(&mut r) {
        Err(ParseMessageErr::InvalidOrCorrupt(e)) => assert_eq!(e.details, "bad protobuf type"),
        other => panic!("unexpected {:?}", other),
    }
}

#[test]
fn string_field_must_be_utf8() {
    let net = net_message_table();
    let data = framed(5, &field_bytes(1, &[0xff, 0xfe]));
    let mut r = ByteReader::new(&data);
    match net.parse_from_reader(&mut r) {
        Err(ParseMessageErr::InvalidOrCorrupt(e)) => assert_eq!(e.details, "string field is not valid utf-8"),
        other => panic!("unexpected {:?}", other),
    }
}

#[test]
fn size_must_match_the_fields() {
    let net = net_message_table();
    // announce 2 bytes but the field takes 3
    let mut data = varint(4);
    data.extend(varint(2));
    data.extend(field_varint(1, 300));
    let mut r = ByteReader::new(&data);
    match net.parse_from_reader(&mut r) {
        Err(ParseMessageErr::InvalidOrCorrupt(e)) => {
            assert_eq!(e.details, "bad read, data read did not equal expected size")
        },
        other => panic!("unexpected {:?}", other),
    }
}

#[test]
fn bad_field_inside_a_message() {
    let net = net_message_table();
    let data = framed(4, &[0x0b, 0x00]);
    let mut r = ByteReader::new(&data);
    match net.parse_from_reader(&mut r) {
        Err(ParseMessageErr::InvalidOrCorrupt(e)) => {
            assert!(e.details.starts_with("bad data parse, proto_message: "))
        },
        other => panic!("unexpected {:?}", other),
    }
}

#[test]
fn nested_and_repeated_fields() {
    let net = net_message_table();
    let inner1 = {
        let mut b = field_bytes(1, b"name1");
        b.extend(field_bytes(2, b"value1"));
        b
    };
    let inner2 = field_bytes(2, b"value2");
    let mut convars = field_bytes(1, &inner1);
    convars.extend(field_bytes(1, &inner2));
    let body = field_bytes(1, &convars);
    let data = framed(6, &body);
    let mut r = ByteReader::new(&data);
    let (m, w) = net.parse_from_reader(&mut r).unwrap();
    assert_eq!(m.name, "SetConVar");
    assert!(!w.has_warnings());
    assert_eq!(w.sub_warnings.len(), 1);
    assert_eq!(w.sub_warnings[0].0, "ConVars");
    match value_of(&m, "ConVars") {
        ProtobufValue::Proto(fs) => {
            assert_eq!(fs.len(), 1);
            match &fs[0].1 {
                ProtobufValue::Repeated(items) => {
                    assert_eq!(items.len(), 2);
                    match &items[1] {
                        ProtobufValue::Proto(f2) => {
                            assert!(matches!(&f2[0].1, ProtobufValue::Absent));
                            assert!(matches!(&f2[1].1, ProtobufValue::String(s) if s == "value2"));
                        },
                        other => panic!("unexpected {:?}", other),
                    }
                },
                other => panic!("unexpected {:?}", other),
            }
        },
        other => panic!("unexpected {:?}", other),
    }
}

#[test]
fn missing_field_of_an_embedded_message_warns() {
    let net = net_message_table();
    let inner = field_bytes(1, b"only name");
    let convars = field_bytes(1, &inner);
    let data = framed(6, &field_bytes(1, &convars));
    let mut r = ByteReader::new(&data);
    let (_, w) = net.parse_from_reader(&mut r).unwrap();
    assert!(w.missing_fields.is_empty());
    assert!(w.unknown_fields.is_empty());
    assert!(w.has_warnings());
}

#[test]
fn decodes_by_id() {
    let user = user_message_table();
    let mut body = field_varint(1, 3);
    body.extend(field_bytes(2, b"hi"));
    let mut r = ByteReader::new(&body);
    let (m, w) = user.parse_from_id_and_reader(5, &mut r).unwrap();
    assert_eq!(m.name, "SayText");
    assert!(matches!(value_of(&m, "text"), ProtobufValue::String(s) if s == "hi"));
    assert!(!w.has_warnings());
}

#[test]
fn empty_repeated_field_is_absent() {
    let user = user_message_table();
    // TextMsg (7): msg_dst and repeated params; no params given
    let body = field_varint(1, 3);
    let mut r = ByteReader::new(&body);
    let (m, w) = user.parse_from_id_and_reader(7, &mut r).unwrap();
    assert!(matches!(value_of(&m, "params"), ProtobufValue::Absent));
    assert_eq!(w.missing_fields, vec![(3u8, "params")]);
}

#[test]
fn table_sizes_and_message_names() {
    assert_eq!(net_message_table().type_count(), 23);
    assert_eq!(user_message_table().type_count(), 13);
    let net = net_message_table();
    let data = framed(4, &tick_body(true));
    let mut r = ByteReader::new(&data);
    let (m, _) = net.parse_from_reader(&mut r).unwrap();
    assert_eq!(m.as_u64(), 4);
    assert_eq!(m.to_str(), "Tick");
}

#[test]
fn decoding_by_id_consumes_every_byte() {
    let user = user_message_table();
    let data = [0x08u8, 0x03, 0x1A, 0x02, 0x68, 0x69];
    let mut r = ByteReader::new(&data);
    let (m, w) = user.parse_from_id_and_reader(7, &mut r).unwrap();
    assert_eq!(m.name, "TextMsg");
    assert_eq!(named_varint(&m.fields, "msg_dst"), Some(3));
    match value_of(&m, "params") {
        ProtobufValue::Repeated(items) => {
            assert_eq!(items.len(), 1);
            assert!(matches!(&items[0], ProtobufValue::String(s) if s == "hi"));
        },
        other => panic!("unexpected {:?}", other),
    }
    assert!(w.unknown_fields.is_empty() && w.missing_fields.is_empty() && w.sub_warnings.is_empty());
    assert_eq!(r.buf_len(), 0);
}

#[test]
fn decoding_by_id_stops_at_a_bad_field() {
    let user = user_message_table();
    let data = [0x08u8, 0x03, 0x0b, 0x01, 0x02];
    let mut r = ByteReader::new(&data);
    assert!(matches!(user.parse_from_id_and_reader(7, &mut r), Err(ParseMessageErr::InvalidOrCorrupt(_))));
    assert_eq!(r.buf_len(), 2);
}

#[test]
fn unknown_id_still_consumes_every_byte() {
    let user = user_message_table();
    let data = [0x08u8, 0x03];
    let mut r = ByteReader::new(&data);
    assert!(matches!(user.parse_from_id_and_reader(99, &mut r), Err(ParseMessageErr::UnknownCommand(99))));
    assert_eq!(r.buf_len(), 0);
}

#[test]
fn nested_warning_at_depth_two() {
    let net = net_message_table();
    let inner = field_bytes(1, b"name only");
    let convars = field_bytes(1, &inner);
    let data = framed(6, &field_bytes(1, &convars));
    let mut r = ByteReader::new(&data);
    let (_, w) = net.parse_from_reader(&mut r).unwrap();
    assert!(w.sub_warnings[0].1.has_warnings());
    assert!(w.sub_warnings[0].1.sub_warnings[0].1.has_warnings());
    assert_eq!(w.sub_warnings[0].1.sub_warnings[0].1.missing_fields, vec![(2u8, "value")]);
}

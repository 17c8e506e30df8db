use source_demo_tool::demo_file::packet::netmessage::net_message_table;
use source_demo_tool::demo_file::packet::protobuf_value::ProtobufValue;
use source_demo_tool::demo_file::packet::usermessage::user_message_table;
use source_demo_tool::demo_file::packet::ParseMessageErr;
use source_demo_tool::demo_file::{DemoFile, FullGameEventKeyType};

fn varint(mut n: u64) -> Vec<u8> {
    let mut out = Vec::new();
    loop {
        let b = (n & 0x7f) as u8;
        n >>= 7;
        if n == 0 {
            out.push(b);
            return out;
        }
        out.push(b | 0x80);
    }
}

fn field_varint(num: u64, v: u64) -> Vec<u8> {
    let mut out = varint(num << 3);
    out.extend(varint(v));
    out
}

fn field_bytes(num: u64, b: &[u8]) -> Vec<u8> {
    let mut out = varint((num << 3) | 2);
    out.extend(varint(b.len() as u64));
    out.extend_from_slice(b);
    out
}

fn field_fixed32(num: u64, v: u32) -> Vec<u8> {
    let mut out = varint((num << 3) | 5);
    out.extend(v.to_le_bytes());
    out
}

fn framed(id: u64, body: &[u8]) -> Vec<u8> {
    let mut out = varint(id);
    out.extend(varint(body.len() as u64));
    out.extend_from_slice(body);
    out
}

fn name260(s: &str) -> Vec<u8> {
    let mut v = s.as_bytes().to_vec();
    v.resize(260, 0);
    v
}

fn demo(sign_on: &[u8], rest: &[u8]) -> Vec<u8> {
    let mut h = b"HL2DEMO\0".to_vec();
    h.extend(4i32.to_le_bytes());
    h.extend(13i32.to_le_bytes());
    for n in ["s", "c", "m", "g"] {
        h.extend(name260(n));
    }
    h.extend(0f32.to_le_bytes());
    h.extend(0i32.to_le_bytes());
    h.extend(0i32.to_le_bytes());
    h.extend((sign_on.len() as i32).to_le_bytes());
    h.extend_from_slice(sign_on);
    h.extend_from_slice(rest);
    h
}

fn packet_frame(cmd: u8, tick: i32, data: &[u8]) -> Vec<u8> {
    let mut f = vec![cmd];
    f.extend(tick.to_le_bytes());
    f.push(0);
    f.extend(vec![0u8; 152]);
    f.extend(0i32.to_le_bytes());
    f.extend(0i32.to_le_bytes());
    f.extend((data.len() as i32).to_le_bytes());
    f.extend_from_slice(data);
    f
}

fn descriptor_key(key_type: u64, name: &str) -> Vec<u8> {
    let mut k = field_varint(1, key_type);
    k.extend(field_bytes(2, name.as_bytes()));
    k
}

fn game_event_list() -> Vec<u8> {
    let mut d1 = field_varint(1, 10);
    d1.extend(field_bytes(2, b"player_death"));
    d1.extend(field_bytes(3, &descriptor_key(4, "userid")));
    d1.extend(field_bytes(3, &descriptor_key(1, "weapon")));
    d1.extend(field_bytes(3, &descriptor_key(6, "headshot")));
    d1.extend(field_bytes(3, &descriptor_key(2, "distance")));
    let mut d2 = field_varint(1, 11);
    d2.extend(field_bytes(2, b"round_start"));
    let mut body = field_bytes(1, &d1);
    body.extend(field_bytes(1, &d2));
    framed(30, &body)
}

fn death_event() -> Vec<u8> {
    let mut k1 = field_varint(1, 4);
    k1.extend(field_varint(5, 7));
    let mut k2 = field_varint(1, 1);
    k2.extend(field_bytes(2, b"ak47"));
    let mut k3 = field_varint(1, 6);
    k3.extend(field_varint(7, 1));
    let mut k4 = field_varint(1, 2);
    k4.extend(field_fixed32(3, 2.5f32.to_bits()));
    let mut body = field_varint(2, 10);
    for k in [k1, k2, k3, k4] {
        body.extend(field_bytes(3, &k));
    }
    framed(25, &body)
}

fn round_start_event() -> Vec<u8> {
    framed(25, &field_varint(2, 11))
}

#[test]
fn full_game_events_follow_their_listing() {
    let net = net_message_table();
    let sign_on = packet_frame(1, 0, &game_event_list());
    let mut rest = packet_frame(2, 50, &death_event());
    rest.extend(packet_frame(2, 20, &round_start_event()));
    let df = DemoFile::from_bytes(String::from("test.dem"), &demo(&sign_on, &rest), &net).unwrap();
    let events = df.checked_full_game_events().unwrap();
    assert_eq!(events.len(), 2);
    assert_eq!(events[0].event_name, "round_start");
    assert_eq!(events[0].event_id, 11);
    assert_eq!(events[0].event_tick, 20);
    assert_eq!((events[0].frame_index, events[0].message_index), (0, 0));
    assert_eq!((events[1].frame_index, events[1].message_index), (1, 0));
    assert!(events[0].event_keys.is_empty());
    let e = &events[1];
    assert_eq!(e.event_name, "player_death");
    assert_eq!(e.event_tick, 50);
    assert_eq!(e.event_keys.len(), 4);
    assert_eq!(e.event_keys[0].key_name, "userid");
    assert!(matches!(e.event_keys[0].key_type, FullGameEventKeyType::Short));
    assert_eq!(e.event_keys[0].val_int, Some(7));
    assert_eq!(e.event_keys[1].val_string.as_deref(), Some("ak47"));
    assert!(matches!(e.event_keys[1].key_type, FullGameEventKeyType::String));
    assert_eq!(e.event_keys[2].val_bool, Some(true));
    assert_eq!(e.event_keys[2].val_int, None);
    assert_eq!(e.event_keys[3].val_float.map(f32::from_bits), Some(2.5));
    let same = df.get_full_game_events();
    assert_eq!(same.len(), 2);
    assert_eq!(same[1].event_keys[1].key_name, "weapon");
}

#[test]
fn no_event_list_means_no_events() {
    let net = net_message_table();
    let rest = packet_frame(2, 50, &death_event());
    let df = DemoFile::from_bytes(String::from("test.dem"), &demo(&[], &rest), &net).unwrap();
    assert!(df.get_game_event_list().is_none());
    assert!(df.get_full_game_events().is_empty());
}

#[test]
fn unlisted_event_cannot_be_completed() {
    let net = net_message_table();
    let sign_on = packet_frame(1, 0, &game_event_list());
    let rest = packet_frame(2, 5, &framed(25, &field_varint(2, 99)));
    let df = DemoFile::from_bytes(String::from("test.dem"), &demo(&sign_on, &rest), &net).unwrap();
    assert!(df.checked_full_game_events().is_none());
}

#[test]
fn key_count_must_match_the_listing() {
    let net = net_message_table();
    let sign_on = packet_frame(1, 0, &game_event_list());
    let rest = packet_frame(2, 5, &framed(25, &field_varint(2, 10)));
    let df = DemoFile::from_bytes(String::from("test.dem"), &demo(&sign_on, &rest), &net).unwrap();
    assert!(df.checked_full_game_events().is_none());
}

#[test]
fn key_type_from_number() {
    assert!(matches!(FullGameEventKeyType::try_from(1u64), Ok(FullGameEventKeyType::String)));
    assert!(matches!(FullGameEventKeyType::try_from(2u64), Ok(FullGameEventKeyType::Float)));
    assert!(matches!(FullGameEventKeyType::try_from(3u64), Ok(FullGameEventKeyType::Long)));
    assert!(matches!(FullGameEventKeyType::try_from(4u64), Ok(FullGameEventKeyType::Short)));
    assert!(matches!(FullGameEventKeyType::try_from(5u64), Ok(FullGameEventKeyType::Byte)));
    assert!(matches!(FullGameEventKeyType::try_from(6u64), Ok(FullGameEventKeyType::Bool)));
    assert_eq!(FullGameEventKeyType::try_from(0u64).unwrap_err(), "unknown key type");
    assert_eq!(FullGameEventKeyType::try_from(7u64).unwrap_err(), "unknown key type");
}

fn user_message(msg_type: u64, data: &[u8]) -> Vec<u8> {
    let mut body = field_varint(1, msg_type);
    body.extend(field_bytes(2, data));
    framed(23, &body)
}

#[test]
fn user_messages_keep_their_location() {
    let net = net_message_table();
    let user = user_message_table();
    let mut say = field_varint(1, 2);
    say.extend(field_bytes(2, b"gg"));
    let mut first = user_message(5, &say);
    first.extend(user_message(77, &[]));
    let mut rest = packet_frame(2, 8, &first);
    let mut second = framed(4, &{
        let mut b = field_varint(1, 1);
        b.extend(field_varint(4, 0));
        b.extend(field_varint(5, 0));
        b.extend(field_varint(6, 0));
        b
    });
    second.extend(user_message(5, &say));
    rest.extend(packet_frame(2, 9, &second));
    let df = DemoFile::from_bytes(String::from("test.dem"), &demo(&[], &rest), &net).unwrap();
    let ums = df.checked_user_messages(&user).unwrap();
    assert_eq!(ums.len(), 3);
    assert_eq!((ums[0].frame_index, ums[0].message_index, ums[0].tick), (0, 0, 8));
    assert_eq!((ums[1].frame_index, ums[1].message_index, ums[1].tick), (0, 1, 8));
    assert_eq!((ums[2].frame_index, ums[2].message_index, ums[2].tick), (1, 1, 9));
    let m = ums[0].message_return.message.as_ref().unwrap();
    assert_eq!(m.name, "SayText");
    assert!(matches!(&m.fields[1].1, ProtobufValue::String(s) if s == "gg"));
    assert!(ums[0].message_return.err.is_none());
    assert!(matches!(ums[1].message_return.err, Some(ParseMessageErr::UnknownCommand(77))));
    assert!(ums[1].message_return.message.is_none());
    assert_eq!(df.get_user_messages(&user).len(), 3);
}

#[test]
fn user_messages_need_decoded_packets() {
    let net = net_message_table();
    let user = user_message_table();
    let rest = packet_frame(2, 8, &framed(250, &[]));
    let df = DemoFile::from_bytes(String::from("test.dem"), &demo(&[], &rest), &net).unwrap();
    assert!(df.checked_user_messages(&user).is_none());
}

#[test]
fn user_message_without_data() {
    let net = net_message_table();
    let user = user_message_table();
    let rest = packet_frame(2, 8, &framed(23, &field_varint(1, 5)));
    let df = DemoFile::from_bytes(String::from("test.dem"), &demo(&[], &rest), &net).unwrap();
    assert!(df.checked_user_messages(&user).is_none());
}

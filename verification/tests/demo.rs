use source_demo_tool::demo_file::frame::Command;
use source_demo_tool::demo_file::packet::netmessage::net_message_table;
use source_demo_tool::demo_file::packet::protobuf_value::ProtobufValue;
use source_demo_tool::demo_file::packet::netmessage::{
    PacketEntityData, PacketEntityDataParse, UpdateType, PACKET_ENTITY_ID,
};
use source_demo_tool::demo_file::{receive_parsed_frames, DemoFile};
use source_demo_tool::message_schema::named_varint;

fn varint(mut n: u64) -> Vec<u8> {
    let mut out = Vec::new();
    loop {
        let b = (n & 0x7f) as u8;
        n >>= 7;
        if n == 0 {
            out.push(b);
            return out;
        }
        out.push(b | 0x80);
    }
}

fn field_varint(num: u64, v: u64) -> Vec<u8> {
    let mut out = varint(num << 3);
    out.extend(varint(v));
    out
}

fn field_bytes(num: u64, b: &[u8]) -> Vec<u8> {
    let mut out = varint((num << 3) | 2);
    out.extend(varint(b.len() as u64));
    out.extend_from_slice(b);
    out
}

fn framed(id: u64, body: &[u8]) -> Vec<u8> {
    let mut out = varint(id);
    out.extend(varint(body.len() as u64));
    out.extend_from_slice(body);
    out
}

fn name260(s: &str) -> Vec<u8> {
    let mut v = s.as_bytes().to_vec();
    v.resize(260, 0);
    v
}

fn header(sign_on_length: i32) -> Vec<u8> {
    let mut h = b"HL2DEMO\0".to_vec();
    h.extend(4i32.to_le_bytes());
    h.extend(13i32.to_le_bytes());
    h.extend(name260("server"));
    h.extend(name260("client"));
    h.extend(name260("de_dust2"));
    h.extend(name260("csgo"));
    h.extend(12.5f32.to_le_bytes());
    h.extend(640i32.to_le_bytes());
    h.extend(5i32.to_le_bytes());
    h.extend(sign_on_length.to_le_bytes());
    h
}

fn packet_frame(cmd: u8, tick: i32, data: &[u8]) -> Vec<u8> {
    let mut f = vec![cmd];
    f.extend(tick.to_le_bytes());
    f.push(0);
    f.extend(vec![0u8; 152]);
    f.extend(1i32.to_le_bytes());
    f.extend(2i32.to_le_bytes());
    f.extend((data.len() as i32).to_le_bytes());
    f.extend_from_slice(data);
    f
}

fn bare_frame(cmd: u8, tick: i32) -> Vec<u8> {
    let mut f = vec![cmd];
    f.extend(tick.to_le_bytes());
    f.push(3);
    f
}

fn data_tables_frame(tick: i32, data: &[u8]) -> Vec<u8> {
    let mut f = vec![6u8];
    f.extend(tick.to_le_bytes());
    f.push(0);
    f.extend((data.len() as u32).to_le_bytes());
    f.extend_from_slice(data);
    f
}

fn server_info_with(max_classes: u64) -> Vec<u8> {
    let mut body = field_varint(1, 13);
    body.extend(field_varint(11, 64));
    body.extend(field_varint(12, max_classes));
    framed(8, &body)
}

fn server_info() -> Vec<u8> {
    server_info_with(300)
}

fn tick_message(t: u64) -> Vec<u8> {
    let mut body = field_varint(1, t);
    body.extend(field_varint(4, 0));
    body.extend(field_varint(5, 0));
    body.extend(field_varint(6, 0));
    framed(4, &body)
}

fn demo(sign_on: &[u8], rest: &[u8]) -> Vec<u8> {
    let mut d = header(sign_on.len() as i32);
    d.extend_from_slice(sign_on);
    d.extend_from_slice(rest);
    d
}

fn sample_demo() -> Vec<u8> {
    let mut sign_on = Vec::new();
    let mut so_data = tick_message(1);
    so_data.extend(server_info());
    sign_on.extend(packet_frame(1, 0, &so_data));
    let mut rest = Vec::new();
    rest.extend(packet_frame(2, 30, &tick_message(30)));
    rest.extend(packet_frame(2, 10, &tick_message(10)));
    rest.extend(bare_frame(3, 5));
    rest.extend(packet_frame(2, 20, &tick_message(20)));
    rest.extend(bare_frame(7, 40));
    demo(&sign_on, &rest)
}

#[test]
fn reads_the_header() {
    let net = net_message_table();
    let df = DemoFile::from_bytes(String::from("test.dem"), &sample_demo(), &net).unwrap();
    assert_eq!(df.header.demo_protocol, 4);
    assert_eq!(df.header.network_protocol, 13);
    assert_eq!(df.header.server_name, "server");
    assert_eq!(df.header.client_name, "client");
    assert_eq!(df.header.map_name, "de_dust2");
    assert_eq!(df.header.game_directory, "csgo");
    assert_eq!(f32::from_bits(df.header.playback_time), 12.5);
    assert_eq!(df.header.ticks, 640);
    assert_eq!(df.header.frames, 5);
}

#[test]
fn frames_are_ordered_by_tick() {
    let net = net_message_table();
    let df = DemoFile::from_bytes(String::from("test.dem"), &sample_demo(), &net).unwrap();
    let ticks: Vec<i32> = df.frames.iter().map(|f| f.tick).collect();
    assert_eq!(ticks, vec![5, 10, 20, 30, 40]);
    let numbers: Vec<u8> = df.frames.iter().map(|f| f.command.as_u8()).collect();
    assert_eq!(numbers, vec![3, 2, 2, 2, 7]);
    assert_eq!(df.frames[0].command.get_command_str(), "SyncTick");
    assert_eq!(df.frames[4].command.get_command_str(), "Stop");
    assert_eq!(df.frames[0].player_slot, 3);
    match &df.frames[2].command {
        Command::Packet(pd) => {
            let m = pd.network_messages[0].message.as_ref().unwrap();
            assert_eq!(named_varint(&m.fields, "current_tick"), Some(20));
            assert_eq!(pd.header.in_seq, 1);
            assert_eq!(pd.header.out_seq, 2);
        },
        other => panic!("unexpected {:?}", other),
    }
}

#[test]
fn sign_on_frames_and_server_info() {
    let net = net_message_table();
    let df = DemoFile::from_bytes(String::from("test.dem"), &sample_demo(), &net).unwrap();
    assert_eq!(df.sign_on_frames.len(), 1);
    assert_eq!(df.sign_on_frames[0].command.get_command_str(), "SignOn");
    let si = df.get_server_info().unwrap();
    assert_eq!(si.id, 8);
    assert_eq!(si.name, "ServerInfo");
    assert_eq!(named_varint(&si.fields, "max_classes"), Some(300));
    assert!(df.get_game_event_list().is_none());
    assert!(df.get_data_tables().is_empty());
}

#[test]
fn no_server_info() {
    let net = net_message_table();
    let sign_on = packet_frame(1, 0, &tick_message(1));
    let df = DemoFile::from_bytes(String::from("test.dem"), &demo(&sign_on, &[]), &net).unwrap();
    assert!(df.get_server_info().is_none());
    assert!(df.frames.is_empty());
}

#[test]
fn undecodable_message_is_kept_as_an_error() {
    let net = net_message_table();
    let mut data = framed(250, &[]);
    data.extend(tick_message(9));
    let sign_on = packet_frame(1, 0, &data);
    let df = DemoFile::from_bytes(String::from("test.dem"), &demo(&sign_on, &[]), &net).unwrap();
    match &df.sign_on_frames[0].command {
        Command::SignOn(pd) => {
            assert_eq!(pd.network_messages.len(), 2);
            assert!(pd.network_messages[0].message.is_none());
            assert!(pd.network_messages[0].err.is_some());
            assert!(pd.network_messages[1].message.is_some());
        },
        other => panic!("unexpected {:?}", other),
    }
}

#[test]
fn bad_magic() {
    let net = net_message_table();
    let mut d = sample_demo();
    d[0] = b'X';
    assert_eq!(
        DemoFile::from_bytes(String::from("test.dem"), &d, &net).unwrap_err(),
        "couldn't parse header: file magic header != HL2DEMO"
    );
}

#[test]
fn short_header() {
    let net = net_message_table();
    let d = sample_demo();
    assert_eq!(
        DemoFile::from_bytes(String::from("test.dem"), &d[..1070], &net).unwrap_err(),
        "couldn't parse header: error parsing sign on length: couldn't read requested bytes from buffer"
    );
}

#[test]
fn negative_ticks() {
    let net = net_message_table();
    let mut d = sample_demo();
    d[1060..1064].copy_from_slice(&(-1i32).to_le_bytes());
    assert_eq!(DemoFile::from_bytes(String::from("test.dem"), &d, &net).unwrap_err(), "couldn't parse header: unexpected negative ticks");
}

#[test]
fn sign_on_data_too_short() {
    let net = net_message_table();
    let mut d = header(100);
    d.extend(vec![0u8; 10]);
    assert_eq!(DemoFile::from_bytes(String::from("test.dem"), &d, &net).unwrap_err(), "couldn't read sign_on_data");
}

#[test]
fn bad_sign_on_frame() {
    let net = net_message_table();
    let sign_on = bare_frame(9, 0);
    let err = DemoFile::from_bytes(String::from("test.dem"), &demo(&sign_on, &[]), &net).unwrap_err();
    assert!(err.starts_with("invalid or corrupt sign_on_data: "));
}

#[test]
fn bad_frame_in_the_stream_ends_the_reading() {
    let net = net_message_table();
    let mut rest = bare_frame(3, 7);
    rest.extend(packet_frame(2, 4, &tick_message(4)));
    rest.extend(bare_frame(42, 2));
    rest.extend(bare_frame(3, 9));
    let df = DemoFile::from_bytes(String::from("test.dem"), &demo(&[], &rest), &net).unwrap();
    let ticks: Vec<i32> = df.frames.iter().map(|f| f.tick).collect();
    assert_eq!(ticks, vec![4, 7]);
    assert!(df.last_index_error.unwrap().starts_with("error occured parsing frame index: "));
}

#[test]
fn complete_demo_has_no_index_error() {
    let net = net_message_table();
    let df = DemoFile::from_bytes(String::from("demos/a.dem"), &sample_demo(), &net).unwrap();
    assert!(df.last_index_error.is_none());
    assert_eq!(df.path, "demos/a.dem");
}

#[test]
fn truncated_frame_in_the_stream() {
    let net = net_message_table();
    let mut rest = bare_frame(3, 1);
    rest.extend(vec![2u8, 0, 0]);
    let df = DemoFile::from_bytes(String::from("test.dem"), &demo(&[], &rest), &net).unwrap();
    assert_eq!(df.frames.len(), 1);
    assert!(df.last_index_error.unwrap().starts_with("error occured parsing frame index: "));
}

fn data_tables(class_count: u16) -> Vec<u8> {
    let mut d = Vec::new();
    let mut table = field_varint(1, 0);
    table.extend(field_bytes(2, b"DT_First"));
    d.extend(framed(9, &table));
    let mut last = field_varint(1, 1);
    last.extend(field_bytes(2, b"DT_Last"));
    d.extend(framed(9, &last));
    d.extend(class_count.to_le_bytes());
    d.extend(7u16.to_le_bytes());
    d.extend(b"CPlayer\0");
    d.extend(b"DT_Player\0");
    d
}

#[test]
fn data_tables_in_sign_on() {
    let net = net_message_table();
    let mut sign_on = packet_frame(1, 0, &server_info());
    sign_on.extend(data_tables_frame(0, &data_tables(1)));
    let df = DemoFile::from_bytes(String::from("test.dem"), &demo(&sign_on, &[]), &net).unwrap();
    let dts = df.get_data_tables();
    assert_eq!(dts.len(), 1);
    assert_eq!(dts[0].send_tables.len(), 2);
    assert_eq!(dts[0].send_tables[1].name, "SendTable");
    assert!(matches!(&dts[0].send_tables[1].fields[1].1, ProtobufValue::String(s) if s == "DT_Last"));
    assert_eq!(dts[0].class_descriptions.len(), 1);
    assert_eq!(dts[0].class_descriptions[0].class_id, 7);
    assert_eq!(dts[0].class_descriptions[0].network_name, "CPlayer");
    assert_eq!(dts[0].class_descriptions[0].table_name, "DT_Player");
}

#[test]
fn data_tables_with_a_wrong_class_count() {
    let net = net_message_table();
    let sign_on = data_tables_frame(0, &data_tables(2));
    assert_eq!(
        DemoFile::from_bytes(String::from("test.dem"), &demo(&sign_on, &[]), &net).unwrap_err(),
        "too little or too many class descriptions were received"
    );
}

#[test]
fn data_tables_in_the_stream_fail_the_demo() {
    let net = net_message_table();
    let rest = data_tables_frame(3, &data_tables(5));
    assert_eq!(
        DemoFile::from_bytes(String::from("test.dem"), &demo(&[], &rest), &net).unwrap_err(),
        "too little or too many class descriptions were received"
    );
}

#[test]
fn negative_packet_length() {
    let net = net_message_table();
    let mut f = packet_frame(2, 1, &[]);
    let len_at = f.len() - 4;
    f[len_at..].copy_from_slice(&(-5i32).to_le_bytes());
    let df = DemoFile::from_bytes(String::from("test.dem"), &demo(&[], &f), &net).unwrap();
    assert!(df.frames.is_empty());
    assert!(df.last_index_error.unwrap().starts_with("error occured parsing frame index: "));
}

fn sync_tick(tick: i32) -> source_demo_tool::demo_file::frame::Frame {
    source_demo_tool::demo_file::frame::Frame { command: Command::SyncTick, tick, player_slot: 0 }
}

#[test]
fn received_frames_sorted_or_first_failure() {
    let sorted = receive_parsed_frames(vec![Ok(sync_tick(9)), Ok(sync_tick(-1)), Ok(sync_tick(4))]).unwrap();
    let ticks: Vec<i32> = sorted.iter().map(|f| f.tick).collect();
    assert_eq!(ticks, vec![-1, 4, 9]);
    let failed = receive_parsed_frames(vec![Ok(sync_tick(1)), Err("first"), Err("second")]);
    assert_eq!(failed.unwrap_err(), "first");
    assert!(receive_parsed_frames(Vec::new()).unwrap().is_empty());
}

#[test]
fn packet_entities_of_a_demo() {
    let net = net_message_table();
    let sign_on = packet_frame(1, 0, &server_info());
    let mut body = field_varint(1, 64);
    body.extend(field_varint(2, 3));
    body.extend(field_varint(3, 1));
    body.extend(field_varint(4, 0));
    body.extend(field_varint(5, 0));
    body.extend(field_bytes(7, &[0, 0, 0, 0]));
    let rest = packet_frame(2, 1, &framed(26, &body));
    let df = DemoFile::from_bytes(String::from("test.dem"), &demo(&sign_on, &rest), &net).unwrap();
    let si = df.get_server_info().unwrap();
    let max_classes = named_varint(&si.fields, "max_classes").unwrap();
    let mut parsed = None;
    for f in &df.frames {
        if let Command::Packet(pd) = &f.command {
            for ret in &pd.network_messages {
                let m = ret.message.as_ref().unwrap();
                if m.id == PACKET_ENTITY_ID {
                    parsed = Some(PacketEntityData::from_message(m).parse(max_classes));
                }
            }
        }
    }
    let parsed = parsed.unwrap();
    assert_eq!(parsed.data.len(), 3);
    assert!(parsed.data.iter().all(|e| e.update_type == UpdateType::DeltaEnt));
}

#[test]
fn server_info_and_data_tables_found_in_main_frames() {
    let net = net_message_table();
    let mut rest = packet_frame(2, 3, &tick_message(3));
    rest.extend(packet_frame(2, 5, &server_info()));
    rest.extend(data_tables_frame(6, &data_tables(1)));
    let df = DemoFile::from_bytes(String::from("test.dem"), &demo(&[], &rest), &net).unwrap();
    let si = df.get_server_info().unwrap();
    assert_eq!(si.id, 8);
    assert_eq!(named_varint(&si.fields, "max_classes"), Some(300));
    assert_eq!(df.get_data_tables().len(), 1);
}

#[test]
fn sign_on_frames_are_searched_first() {
    let net = net_message_table();
    let first = server_info_with(100);
    let mut sign_on = data_tables_frame(0, &data_tables(1));
    sign_on.extend(packet_frame(1, 0, &first));
    let mut rest = packet_frame(2, 5, &server_info());
    rest.extend(data_tables_frame(6, &data_tables(1)));
    let df = DemoFile::from_bytes(String::from("test.dem"), &demo(&sign_on, &rest), &net).unwrap();
    assert_eq!(named_varint(&df.get_server_info().unwrap().fields, "max_classes"), Some(100));
    let dts = df.get_data_tables();
    assert_eq!(dts.len(), 2);
    assert_eq!(dts[0].class_descriptions[0].network_name, "CPlayer");
}

#[test]
fn packet_frames_of_the_sign_on_list_are_not_searched() {
    let net = net_message_table();
    let sign_on = packet_frame(2, 0, &server_info_with(100));
    let rest = packet_frame(2, 5, &server_info_with(200));
    let df = DemoFile::from_bytes(String::from("test.dem"), &demo(&sign_on, &rest), &net).unwrap();
    assert_eq!(named_varint(&df.get_server_info().unwrap().fields, "max_classes"), Some(200));
    let df = DemoFile::from_bytes(String::from("test.dem"), &demo(&sign_on, &[]), &net).unwrap();
    assert!(df.get_server_info().is_none());
}

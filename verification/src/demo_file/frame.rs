use vstd::prelude::*;
use crate::reader::ByteReader;
use crate::bitmath::le_value;
use crate::event_data::EventData;
use crate::parse_tools::{
    parse_u8, parse_u16, parse_u32, parse_i32, parse_cstr, join_str, cstr_spec, str_result_matches,
};
use crate::message_schema::{
    DecodedMessage, MessageModel, MessageSpec, MessageTable, spec_framed_message, named_value,
    varint_of, named_varint, lemma_framed_message_consumes, decimal, u8_to_decimal,
};
use crate::demo_file::packet::{
    Header, PacketIndex, PacketData, packet_index_spec, packet_messages_spec, return_matches,
    packet_data_matches,
};
use crate::demo_file::packet::netmessage::SEND_TABLE_ID;

verus! {

/// A data tables frame before it is decoded: its bytes.
pub struct DataTablesIndex {
    pub data: Vec<u8>,
}

/// Reading a data tables frame from the start of `s`: a 32-bit length and
/// that many bytes.
pub open spec fn data_tables_index_spec(s: Seq<u8>) -> (Result<Seq<u8>, Seq<char>>, Seq<u8>) {
    if s.len() < 4 {
        (Err("parsing data_len: "@ + "couldn't read requested bytes from buffer"@), Seq::empty())
    } else {
        let n = le_value(s.take(4));
        let rest = s.skip(4);
        if rest.len() < n {
            (Err("couldn't read data tables data"@), Seq::empty())
        } else {
            (Ok(rest.take(n as int)), rest.skip(n as int))
        }
    }
}

impl DataTablesIndex {
    /// Reads a 32-bit length and that many bytes.
    pub fn from_readable(reader: &mut ByteReader) -> (r: Result<Self, String>)
        requires
            old(reader).wf(),
        ensures
            final(reader).wf(),
            final(reader)@ == data_tables_index_spec(old(reader)@).1,
            match data_tables_index_spec(old(reader)@).0 {
                Ok(d) => r matches Ok(x) && x.data@ == d,
                Err(e) => r matches Err(x) && x@ == e,
            },
    {
        let data_len = match parse_u32(reader) {
            Ok(n) => n,
            Err(e) => return Err(join_str("parsing data_len: ", e)),
        };
        proof {
            crate::bitmath::lemma_le_value_bound(old(reader)@.take(4));
            vstd::arithmetic::power2::lemma2_to64();
        }
        match reader.read_exact(data_len as usize) {
            Some(data) => Ok(Self { data }),
            None => Err("couldn't read data tables data".to_owned()),
        }
    }
}

/// A server class: its id, its network name and the name of its table.
#[derive(Debug, Clone)]
pub struct DataTablesClassDescription {
    pub class_id: u16,
    pub network_name: String,
    pub table_name: String,
}

/// The model of a class description.
pub struct ClassModel {
    pub class_id: u16,
    pub network_name: Seq<char>,
    pub table_name: Seq<char>,
}

/// The model of a class description.
pub open spec fn class_view(c: DataTablesClassDescription) -> ClassModel {
    ClassModel { class_id: c.class_id, network_name: c.network_name@, table_name: c.table_name@ }
}

/// The decoded data tables: the send tables and the server classes.
#[derive(Debug)]
pub struct DataTablesData {
    pub send_tables: Vec<DecodedMessage>,
    pub class_descriptions: Vec<DataTablesClassDescription>,
}

/// Whether a decoded send table is the last one.
pub open spec fn is_end_table(m: MessageModel) -> bool {
    match varint_of(named_value(m.fields, "is_end"@)) {
        Some(v) => v > 0,
        None => false,
    }
}

/// Reading send tables from the start of `s`, up to and including the one
/// marked as the last or until `s` is used up: the tables (or the details
/// of a failure) and the bytes left.
pub open spec fn send_tables_spec(specs: Seq<MessageSpec>, s: Seq<u8>) -> (Result<Seq<MessageModel>, Seq<char>>, Seq<u8>)
    decreases s.len(),
{
    if s.len() == 0 {
        (Ok(Seq::empty()), s)
    } else {
        let (r, rest) = spec_framed_message(specs, s);
        match r {
            Err(_) => (Err("couldn't parse SendTable message"@), rest),
            Ok((m, _w)) => if m.id != SEND_TABLE_ID {
                (Err("expected SendTable messages only"@), rest)
            } else if is_end_table(m) || rest.len() >= s.len() {
                (Ok(seq![m]), rest)
            } else {
                let (r2, rest2) = send_tables_spec(specs, rest);
                match r2 {
                    Ok(ms) => (Ok(seq![m] + ms), rest2),
                    Err(e) => (Err(e), rest2),
                }
            },
        }
    }
}

/// Reading class descriptions until `s` is used up: each a 16-bit id and
/// two zero-terminated strings.
pub open spec fn classes_spec(s: Seq<u8>) -> Result<Seq<ClassModel>, Seq<char>>
    decreases s.len(),
{
    if s.len() == 0 {
        Ok(Seq::empty())
    } else if s.len() < 2 {
        Err("couldn't read requested bytes from buffer"@)
    } else {
        let class_id = le_value(s.take(2)) as u16;
        let (n1, r1) = cstr_spec(s.skip(2));
        match n1 {
            Err(e) => Err(e),
            Ok(network_name) => {
                let (n2, r2) = cstr_spec(r1);
                match n2 {
                    Err(e) => Err(e),
                    Ok(table_name) => if r2.len() < s.len() {
                        match classes_spec(r2) {
                            Ok(cs) => Ok(seq![ClassModel { class_id, network_name, table_name }] + cs),
                            Err(e) => Err(e),
                        }
                    } else {
                        Err(Seq::empty())
                    },
                }
            },
        }
    }
}

/// Decoding data tables: the send tables, then a 16-bit count and that
/// many class descriptions filling the rest.
#[verifier::opaque]
pub open spec fn data_tables_spec(specs: Seq<MessageSpec>, s: Seq<u8>) -> Result<(Seq<MessageModel>, Seq<ClassModel>), Seq<char>> {
    let (st, rest) = send_tables_spec(specs, s);
    match st {
        Err(e) => Err(e),
        Ok(tables) => if rest.len() < 2 {
            Err("couldn't read requested bytes from buffer"@)
        } else {
            let count = le_value(rest.take(2));
            match classes_spec(rest.skip(2)) {
                Err(e) => Err(e),
                Ok(cs) => if cs.len() != count {
                    Err("too little or too many class descriptions were received"@)
                } else {
                    Ok((tables, cs))
                },
            }
        },
    }
}

/// Whether decoded data tables are those their model describes.
pub open spec fn data_tables_matches(d: DataTablesData, m: (Seq<MessageModel>, Seq<ClassModel>)) -> bool {
    &&& d.send_tables@.len() == m.0.len()
    &&& forall|i: int| 0 <= i < m.0.len() ==> (#[trigger] d.send_tables@[i])@ == m.0[i]
    &&& d.class_descriptions@.len() == m.1.len()
    &&& forall|i: int| 0 <= i < m.1.len() ==> class_view(#[trigger] d.class_descriptions@[i]) == m.1[i]
}

proof fn lemma_cstr_shrinks(s: Seq<u8>)
    ensures
        cstr_spec(s).1.len() <= s.len(),
{
    crate::parse_tools::lemma_first_zero(s);
}

/// Reads send tables up to the one marked last.
fn read_send_tables(reader: &mut ByteReader, net: &MessageTable) -> (r: Result<Vec<DecodedMessage>, &'static str>)
    requires
        old(reader).wf(),
    ensures
        final(reader).wf(),
        match send_tables_spec(net.messages@, old(reader)@) {
            (Ok(ms), rest) => r matches Ok(v) && v@.map_values(|m: DecodedMessage| m@) == ms
                && final(reader)@ == rest,
            (Err(e), _) => r matches Err(x) && x@ == e,
        },
{
    let ghost specs = net.messages@;
    let ghost target = send_tables_spec(specs, reader@);
    let mut send_tables: Vec<DecodedMessage> = Vec::new();
    proof {
        assert(send_tables@.map_values(|m: DecodedMessage| m@) =~= Seq::<MessageModel>::empty());
        match target.0 {
            Ok(ms) => assert(Seq::<MessageModel>::empty() + ms =~= ms),
            Err(_) => {},
        }
    }
    while reader.buf_len() > 0
        invariant
            reader.wf(),
            specs == net.messages@,
            target == send_tables_spec(specs, old(reader)@),
            target == (match send_tables_spec(specs, reader@).0 {
                Ok(ms) => Ok(send_tables@.map_values(|m: DecodedMessage| m@) + ms),
                Err(e) => Err(e),
            }, send_tables_spec(specs, reader@).1),
        decreases reader@.len(),
    {
        let ghost before = reader@;
        proof {
            lemma_framed_message_consumes(specs, before);
        }
        let msg = match net.parse_from_reader(reader) {
            Ok((msg, _warn)) => msg,
            Err(_) => return Err("couldn't parse SendTable message"),
        };
        if msg.id != SEND_TABLE_ID {
            return Err("expected SendTable messages only");
        }
        let is_end = match named_varint(&msg.fields, "is_end") {
            Some(v) => v > 0,
            None => false,
        };
        let ghost prev = send_tables@.map_values(|m: DecodedMessage| m@);
        let ghost mm = msg@;
        send_tables.push(msg);
        proof {
            assert(send_tables@.map_values(|m: DecodedMessage| m@) =~= prev.push(mm));
            assert(is_end == is_end_table(mm));
            if !is_end {
                match send_tables_spec(specs, reader@).0 {
                    Ok(ms) => assert(prev + (seq![mm] + ms) =~= prev.push(mm) + ms),
                    Err(_) => {},
                }
            }
        }
        if is_end {
            return Ok(send_tables);
        }
    }
    proof {
        assert(send_tables@.map_values(|m: DecodedMessage| m@) + Seq::<MessageModel>::empty()
            =~= send_tables@.map_values(|m: DecodedMessage| m@));
    }
    Ok(send_tables)
}

/// Reads class descriptions until the reader is empty.
fn read_classes(reader: &mut ByteReader) -> (r: Result<Vec<DataTablesClassDescription>, &'static str>)
    requires
        old(reader).wf(),
    ensures
        match classes_spec(old(reader)@) {
            Ok(cs) => r matches Ok(v) && v@.map_values(|c: DataTablesClassDescription| class_view(c)) == cs,
            Err(e) => r matches Err(x) && x@ == e,
        },
{
    let ghost cs_target = classes_spec(reader@);
    let mut class_descriptions: Vec<DataTablesClassDescription> = Vec::new();
    proof {
        assert(class_descriptions@.map_values(|c: DataTablesClassDescription| class_view(c)) =~= Seq::<ClassModel>::empty());
        match cs_target {
            Ok(cs) => assert(Seq::<ClassModel>::empty() + cs =~= cs),
            Err(_) => {},
        }
    }
    while reader.buf_len() > 0
        invariant
            reader.wf(),
            cs_target == classes_spec(old(reader)@),
            cs_target == (match classes_spec(reader@) {
                Ok(cs) => Ok(class_descriptions@.map_values(|c: DataTablesClassDescription| class_view(c)) + cs),
                Err(e) => Err(e),
            }),
        decreases reader@.len(),
    {
        let ghost before = reader@;
        proof {
            if before.len() >= 2 {
                lemma_cstr_shrinks(before.skip(2));
                lemma_cstr_shrinks(cstr_spec(before.skip(2)).1);
            }
        }
        let class_id = parse_u16(reader)?;
        let network_name = parse_cstr(reader)?;
        let table_name = parse_cstr(reader)?;
        let ghost prev = class_descriptions@.map_values(|c: DataTablesClassDescription| class_view(c));
        let c = DataTablesClassDescription { class_id, network_name, table_name };
        let ghost cm = class_view(c);
        class_descriptions.push(c);
        proof {
            assert(class_descriptions@.map_values(|c: DataTablesClassDescription| class_view(c)) =~= prev.push(cm));
            match classes_spec(reader@) {
                Ok(cs) => assert(prev + (seq![cm] + cs) =~= prev.push(cm) + cs),
                Err(_) => {},
            }
        }
    }
    proof {
        assert(class_descriptions@.map_values(|c: DataTablesClassDescription| class_view(c)) + Seq::<ClassModel>::empty()
            =~= class_descriptions@.map_values(|c: DataTablesClassDescription| class_view(c)));
    }
    Ok(class_descriptions)
}

impl DataTablesData {
    /// Decodes data tables: send table messages up to the one marked last,
    /// then the count of server classes and their descriptions.
    pub fn from_data_tables_index(dti: DataTablesIndex, net: &MessageTable) -> (r: Result<Self, &'static str>)
        ensures
            match data_tables_spec(net.messages@, dti.data@) {
                Ok(m) => r matches Ok(d) && data_tables_matches(d, m),
                Err(e) => r matches Err(x) && x@ == e,
            },
    {
        reveal(data_tables_spec);
        let mut data_reader = ByteReader::new(dti.data.as_slice());
        let send_tables = read_send_tables(&mut data_reader, net)?;
        let ghost rest = data_reader@;
        let class_count = parse_u16(&mut data_reader)?;
        proof {
            crate::bitmath::lemma_le_value_bound(rest.take(2));
            vstd::arithmetic::power2::lemma2_to64();
            assert(class_count as nat == le_value(rest.take(2)));
        }
        let class_descriptions = read_classes(&mut data_reader)?;
        proof {
            assert(class_descriptions@.map_values(|c: DataTablesClassDescription| class_view(c)).len()
                == class_descriptions@.len());
        }
        if class_descriptions.len() != class_count as usize {
            return Err("too little or too many class descriptions were received");
        }
        let d = Self { send_tables, class_descriptions };
        proof {
            let m = data_tables_spec(net.messages@, dti.data@);
            if let Ok(mm) = m {
                assert forall|i: int| 0 <= i < mm.0.len() implies (#[trigger] d.send_tables@[i])@ == mm.0[i] by {
                    assert(d.send_tables@.map_values(|m: DecodedMessage| m@)[i] == d.send_tables@[i]@);
                }
                assert forall|i: int| 0 <= i < mm.1.len() implies class_view(#[trigger] d.class_descriptions@[i]) == mm.1[i] by {
                    assert(d.class_descriptions@.map_values(|c: DataTablesClassDescription| class_view(c))[i]
                        == class_view(d.class_descriptions@[i]));
                }
            }
        }
        Ok(d)
    }
}

/// The command number of a sign-on packet frame.
pub const SIGN_ON: u8 = 1;

/// The command number of a packet frame.
pub const PACKET: u8 = 2;

/// The command number of a sync tick frame.
pub const SYNC_TICK: u8 = 3;

/// The command number of a data tables frame.
pub const DATA_TABLES: u8 = 6;

/// The command number of the stop frame.
pub const STOP: u8 = 7;

/// The body of a frame before it is decoded.
pub enum CommandIndex {
    SignOn(PacketIndex),
    Packet(PacketIndex),
    SyncTick,
    DataTables(DataTablesIndex),
    Stop,
}

/// The model of an undecoded frame body.
pub enum CommandIndexModel {
    SignOn(Header, Seq<u8>),
    Packet(Header, Seq<u8>),
    SyncTick,
    DataTables(Seq<u8>),
    Stop,
}

/// The model of an undecoded frame body.
pub open spec fn command_index_view(c: CommandIndex) -> CommandIndexModel {
    match c {
        CommandIndex::SignOn(pi) => CommandIndexModel::SignOn(pi.header, pi.data@),
        CommandIndex::Packet(pi) => CommandIndexModel::Packet(pi.header, pi.data@),
        CommandIndex::SyncTick => CommandIndexModel::SyncTick,
        CommandIndex::DataTables(d) => CommandIndexModel::DataTables(d.data@),
        CommandIndex::Stop => CommandIndexModel::Stop,
    }
}

/// Reading the body of a frame with command number `num` from the start of
/// `s`: the body or the details of the failure, and the bytes left.
pub open spec fn command_index_spec(num: u8, s: Seq<u8>) -> (Result<CommandIndexModel, Seq<char>>, Seq<u8>) {
    if num == SIGN_ON || num == PACKET {
        let (r, rest) = packet_index_spec(s);
        match r {
            Ok((h, d)) => (
                Ok(if num == SIGN_ON { CommandIndexModel::SignOn(h, d) } else { CommandIndexModel::Packet(h, d) }),
                rest,
            ),
            Err(_) => (
                Err(if num == SIGN_ON { "SignOnIndex parse error"@ } else { "PacketIndex parse error"@ }),
                rest,
            ),
        }
    } else if num == SYNC_TICK {
        (Ok(CommandIndexModel::SyncTick), s)
    } else if num == DATA_TABLES {
        let (r, rest) = data_tables_index_spec(s);
        match r {
            Ok(d) => (Ok(CommandIndexModel::DataTables(d)), rest),
            Err(_) => (Err("DataTablesIndex parse error"@), rest),
        }
    } else if num == STOP {
        (Ok(CommandIndexModel::Stop), s)
    } else {
        (Err("unsupported command number: "@ + decimal(num as nat)), s)
    }
}

impl CommandIndex {
    /// Reads the body of a frame with the given command number.
    pub fn from_u8_and_reader(num: u8, reader: &mut ByteReader) -> (r: Result<Self, EventData>)
        requires
            old(reader).wf(),
        ensures
            final(reader).wf(),
            final(reader)@ == command_index_spec(num, old(reader)@).1,
            match command_index_spec(num, old(reader)@).0 {
                Ok(c) => r matches Ok(x) && command_index_view(x) == c,
                Err(e) => r matches Err(x) && x.details@ == e,
            },
    {
        if num == SIGN_ON {
            match PacketIndex::from_readable(reader) {
                Ok(soi) => Ok(Self::SignOn(soi)),
                Err(_e) => Err(EventData::new("SignOnIndex parse error", "src/demo_file/frame.rs")),
            }
        } else if num == PACKET {
            match PacketIndex::from_readable(reader) {
                Ok(pi) => Ok(Self::Packet(pi)),
                Err(_e) => Err(EventData::new("PacketIndex parse error", "src/demo_file/frame.rs")),
            }
        } else if num == SYNC_TICK {
            Ok(Self::SyncTick)
        } else if num == DATA_TABLES {
            match DataTablesIndex::from_readable(reader) {
                Ok(dti) => Ok(Self::DataTables(dti)),
                Err(_e) => Err(EventData::new("DataTablesIndex parse error", "src/demo_file/frame.rs")),
            }
        } else if num == STOP {
            Ok(Self::Stop)
        } else {
            let digits = u8_to_decimal(num);
            Err(EventData::with_suffix("unsupported command number: ", digits, "src/demo_file/frame.rs"))
        }
    }
}

/// A frame before its body is decoded: the body, the tick and the player slot.
pub struct FrameIndex {
    pub command_index: CommandIndex,
    pub tick: i32,
    pub player_slot: u8,
}

/// Reading a frame from the start of `s`: a command number, a 32-bit tick,
/// a player slot and the body; or the details of a failure; and the bytes left.
pub open spec fn frame_index_spec(s: Seq<u8>) -> (Result<(CommandIndexModel, i32, u8), Seq<char>>, Seq<u8>) {
    if s.len() < 1 {
        (Err("couldn't parse command"@), Seq::empty())
    } else if s.len() < 5 {
        (Err("couldn't parse tick"@), Seq::empty())
    } else if s.len() < 6 {
        (Err("couldn't parse player slot"@), Seq::empty())
    } else {
        let tick = le_value(s.subrange(1, 5)) as i32;
        let (r, rest) = command_index_spec(s[0], s.skip(6));
        match r {
            Ok(c) => (Ok((c, tick, s[5])), rest),
            Err(e) => (Err(e), rest),
        }
    }
}

impl FrameIndex {
    /// Reads a frame: command number, tick, player slot and body.
    pub fn from_readable(reader: &mut ByteReader) -> (r: Result<Self, EventData>)
        requires
            old(reader).wf(),
        ensures
            final(reader).wf(),
            final(reader)@ == frame_index_spec(old(reader)@).1,
            match frame_index_spec(old(reader)@).0 {
                Ok((c, tick, slot)) => r matches Ok(x) && command_index_view(x.command_index) == c
                    && x.tick == tick && x.player_slot == slot,
                Err(e) => r matches Err(x) && x.details@ == e,
            },
    {
        let ghost s = reader@;
        let command_num = match parse_u8(reader) {
            Ok(n) => n,
            Err(_e) => return Err(EventData::new("couldn't parse command", "src/demo_file/frame.rs")),
        };
        let tick = match parse_i32(reader) {
            Ok(n) => n,
            Err(_e) => return Err(EventData::new("couldn't parse tick", "src/demo_file/frame.rs")),
        };
        let player_slot = match parse_u8(reader) {
            Ok(n) => n,
            Err(_e) => return Err(EventData::new("couldn't parse player slot", "src/demo_file/frame.rs")),
        };
        proof {
            assert(s.skip(1).take(4) =~= s.subrange(1, 5));
            assert(s.skip(1).skip(4)[0] == s[5]);
            assert(s.skip(1).skip(4).skip(1) =~= s.skip(6));
        }
        let command_index = CommandIndex::from_u8_and_reader(command_num, reader)?;
        Ok(Self { command_index, tick, player_slot })
    }
}

/// The decoded body of a frame.
#[derive(Debug)]
pub enum Command {
    SignOn(PacketData),
    Packet(PacketData),
    SyncTick,
    DataTables(DataTablesData),
    Stop,
}

/// Whether a decoded frame body is the decoding of its model.
#[verifier::opaque]
pub open spec fn command_matches(c: Command, ci: CommandIndexModel, specs: Seq<MessageSpec>) -> bool {
    match ci {
        CommandIndexModel::SignOn(h, d) => c matches Command::SignOn(pd) && packet_data_matches(pd, specs, h, d),
        CommandIndexModel::Packet(h, d) => c matches Command::Packet(pd) && packet_data_matches(pd, specs, h, d),
        CommandIndexModel::SyncTick => c is SyncTick,
        CommandIndexModel::DataTables(d) => match data_tables_spec(specs, d) {
            Ok(m) => c matches Command::DataTables(dt) && data_tables_matches(dt, m),
            Err(_) => false,
        },
        CommandIndexModel::Stop => c is Stop,
    }
}

/// Why a frame body cannot be decoded, if it cannot.
pub open spec fn command_failure(ci: CommandIndexModel, specs: Seq<MessageSpec>) -> Option<Seq<char>> {
    match ci {
        CommandIndexModel::DataTables(d) => match data_tables_spec(specs, d) {
            Ok(_) => None,
            Err(e) => Some(e),
        },
        _ => None,
    }
}

impl Command {
    /// Decodes a frame body: the messages of a packet, or the data tables.
    pub fn from_command_index(value: CommandIndex, net: &MessageTable) -> (r: Result<Self, &'static str>)
        ensures
            match command_failure(command_index_view(value), net.messages@) {
                None => r matches Ok(c) && command_matches(c, command_index_view(value), net.messages@),
                Some(e) => r matches Err(x) && x@ == e,
            },
    {
        reveal(command_matches);
        match value {
            CommandIndex::Packet(pi) => Ok(Command::Packet(PacketData::from_packet_index(pi, net))),
            CommandIndex::SignOn(pi) => Ok(Command::SignOn(PacketData::from_packet_index(pi, net))),
            CommandIndex::SyncTick => Ok(Command::SyncTick),
            CommandIndex::DataTables(dti) => Ok(Command::DataTables(DataTablesData::from_data_tables_index(dti, net)?)),
            CommandIndex::Stop => Ok(Command::Stop),
        }
    }

    /// The command number of the frame.
    pub fn as_u8(&self) -> (r: u8)
        ensures
            r == command_number(*self),
    {
        match self {
            Command::SignOn(_) => SIGN_ON,
            Command::Packet(_) => PACKET,
            Command::SyncTick => SYNC_TICK,
            Command::DataTables(_) => DATA_TABLES,
            Command::Stop => STOP,
        }
    }

    /// The name of the command.
    pub fn get_command_str(&self) -> (r: &'static str)
        ensures
            r@ == command_name(*self),
    {
        match self {
            Command::SignOn(_) => "SignOn",
            Command::Packet(_) => "Packet",
            Command::SyncTick => "SyncTick",
            Command::DataTables(_) => "DataTables",
            Command::Stop => "Stop",
        }
    }
}

/// The command number of a frame body.
pub open spec fn command_number(c: Command) -> u8 {
    match c {
        Command::SignOn(_) => SIGN_ON,
        Command::Packet(_) => PACKET,
        Command::SyncTick => SYNC_TICK,
        Command::DataTables(_) => DATA_TABLES,
        Command::Stop => STOP,
    }
}

/// The name of the command of a frame body.
pub open spec fn command_name(c: Command) -> Seq<char> {
    match c {
        Command::SignOn(_) => "SignOn"@,
        Command::Packet(_) => "Packet"@,
        Command::SyncTick => "SyncTick"@,
        Command::DataTables(_) => "DataTables"@,
        Command::Stop => "Stop"@,
    }
}

/// The command number that an undecoded frame body was read with.
pub open spec fn model_number(c: CommandIndexModel) -> u8 {
    match c {
        CommandIndexModel::SignOn(_, _) => SIGN_ON,
        CommandIndexModel::Packet(_, _) => PACKET,
        CommandIndexModel::SyncTick => SYNC_TICK,
        CommandIndexModel::DataTables(_) => DATA_TABLES,
        CommandIndexModel::Stop => STOP,
    }
}

/// A decoded frame.
#[derive(Debug)]
pub struct Frame {
    pub command: Command,
    pub tick: i32,
    pub player_slot: u8,
}

impl Frame {
    /// Decodes the body of a frame, keeping its tick and player slot.
    pub fn from_frame_index(frame_index: FrameIndex, net: &MessageTable) -> (r: Result<Self, &'static str>)
        ensures
            match command_failure(command_index_view(frame_index.command_index), net.messages@) {
                None => r matches Ok(f) && command_matches(
                    f.command,
                    command_index_view(frame_index.command_index),
                    net.messages@,
                ) && f.tick == frame_index.tick && f.player_slot == frame_index.player_slot,
                Some(e) => r matches Err(x) && x@ == e,
            },
    {
        let tick = frame_index.tick;
        let player_slot = frame_index.player_slot;
        let command = Command::from_command_index(frame_index.command_index, net)?;
        Ok(Self { command, tick, player_slot })
    }
}

/// The model of an undecoded frame: its body, tick and player slot.
pub open spec fn frame_index_view(fi: FrameIndex) -> (CommandIndexModel, i32, u8) {
    (command_index_view(fi.command_index), fi.tick, fi.player_slot)
}

/// Whether a decoded frame is the decoding of an undecoded one.
pub open spec fn frame_matches(f: Frame, x: (CommandIndexModel, i32, u8), specs: Seq<MessageSpec>) -> bool {
    &&& command_matches(f.command, x.0, specs)
    &&& f.tick == x.1
    &&& f.player_slot == x.2
}

/// Reading a frame from a non-empty input consumes something.
pub proof fn lemma_frame_index_consumes(s: Seq<u8>)
    requires
        s.len() > 0,
    ensures
        frame_index_spec(s).1.len() < s.len(),
{
    if s.len() >= 6 {
        let t = s.skip(6);
        assert(packet_index_spec(t).1.len() <= t.len());
        assert(data_tables_index_spec(t).1.len() <= t.len());
    }
}

/// A frame body read with command number `num` and then decoded reports
/// `num` again through `as_u8`, and the name of that command.
pub proof fn law_command_number_round_trip(num: u8, s: Seq<u8>, c: Command, specs: Seq<MessageSpec>)
    requires
        command_index_spec(num, s).0 is Ok,
        command_matches(c, command_index_spec(num, s).0->Ok_0, specs),
    ensures
        command_number(c) == num,
        model_number(command_index_spec(num, s).0->Ok_0) == num,
{
    reveal(command_matches);
}

} // verus!
use vstd::prelude::*;
use crate::event_data::EventData;
use crate::protobuf_message::{ProtobufMessage, WireField, fields_view};
use crate::reader::ByteReader;
use crate::bitmath::le_value;
use crate::engine_types::{Vector3F64, vector_at};
use crate::parse_tools::{parse_i32, parse_i64, join_str};
use crate::message_schema::{
    DecodedMessage, MessageModel, MessageFailure, MessageSpec, MessageTable, failure_matches,
    spec_framed_message, lemma_framed_message_consumes,
};

pub mod protobuf_value;
pub mod netmessage;
pub mod usermessage;

verus! {

/// The player's view when a packet was recorded; the vectors hold float bits.
#[derive(Debug, Clone, Copy, PartialEq, Eq)]
pub struct CommandInfo {
    pub flags: i64,
    pub view_origin: Vector3F64,
    pub view_angles: Vector3F64,
    pub local_view_angles: Vector3F64,
    pub inter_view_origin: Vector3F64,
    pub inter_view_angles: Vector3F64,
    pub inter_local_view_angles: Vector3F64,
}

/// The command info stored at the start of `s`.
pub open spec fn command_info_at(s: Seq<u8>) -> CommandInfo {
    CommandInfo {
        flags: le_value(s.subrange(0, 8)) as i64,
        view_origin: vector_at(s.subrange(8, 32)),
        view_angles: vector_at(s.subrange(32, 56)),
        local_view_angles: vector_at(s.subrange(56, 80)),
        inter_view_origin: vector_at(s.subrange(80, 104)),
        inter_view_angles: vector_at(s.subrange(104, 128)),
        inter_local_view_angles: vector_at(s.subrange(128, 152)),
    }
}

/// Why a command info cannot be read from `len` bytes (fewer than 152).
pub open spec fn command_info_error(len: nat) -> Seq<char> {
    if len < 8 {
        "error parsing flags: "@ + "couldn't read requested bytes from buffer"@
    } else if len < 32 {
        "error parsing view origin: "@ + "couldn't parse vector"@
    } else if len < 56 {
        "error parsing view angles: "@ + "couldn't parse vector"@
    } else if len < 80 {
        "error parsing local view angles: "@ + "couldn't parse vector"@
    } else if len < 104 {
        "error parsing interpolated view origin: "@ + "couldn't parse vector"@
    } else if len < 128 {
        "error parsing interpolated view angles: "@ + "couldn't parse vector"@
    } else {
        "error parsing interpolated local view angles: "@ + "couldn't parse vector"@
    }
}

proof fn lemma_vector_shift(s: Seq<u8>, a: int)
    requires
        0 <= a,
        a + 24 <= s.len(),
    ensures
        vector_at(s.skip(a)) == vector_at(s.subrange(a, a + 24)),
{
    assert(s.skip(a).subrange(0, 8) =~= s.subrange(a, a + 24).subrange(0, 8));
    assert(s.skip(a).subrange(8, 16) =~= s.subrange(a, a + 24).subrange(8, 16));
    assert(s.skip(a).subrange(16, 24) =~= s.subrange(a, a + 24).subrange(16, 24));
}

impl CommandInfo {
    /// Reads a command info: a 64-bit flags word and six vectors.
    fn from_readable(reader: &mut ByteReader) -> (r: Result<CommandInfo, String>)
        requires
            old(reader).wf(),
        ensures
            final(reader).wf(),
            old(reader)@.len() >= 152 ==> r == Ok::<CommandInfo, String>(command_info_at(old(reader)@))
                && final(reader)@ == old(reader)@.skip(152),
            old(reader)@.len() < 152 ==> (r matches Err(e) && e@ == command_info_error(old(reader)@.len()))
                && final(reader)@ == Seq::<u8>::empty(),
    {
        let ghost s = reader@;
        let flags = match parse_i64(reader) {
            Ok(n) => n,
            Err(e) => return Err(join_str("error parsing flags: ", e)),
        };
        proof {
            assert(s.take(8) =~= s.subrange(0, 8));
            assert(reader@ =~= s.skip(8));
        }
        let view_origin = match Vector3F64::from_readable(reader) {
            Ok(v) => v,
            Err(e) => return Err(join_str("error parsing view origin: ", e)),
        };
        proof {
            lemma_vector_shift(s, 8);
            assert(reader@ =~= s.skip(32));
        }
        let view_angles = match Vector3F64::from_readable(reader) {
            Ok(v) => v,
            Err(e) => return Err(join_str("error parsing view angles: ", e)),
        };
        proof {
            lemma_vector_shift(s, 32);
            assert(reader@ =~= s.skip(56));
        }
        let local_view_angles = match Vector3F64::from_readable(reader) {
            Ok(v) => v,
            Err(e) => return Err(join_str("error parsing local view angles: ", e)),
        };
        proof {
            lemma_vector_shift(s, 56);
            assert(reader@ =~= s.skip(80));
        }
        let inter_view_origin = match Vector3F64::from_readable(reader) {
            Ok(v) => v,
            Err(e) => return Err(join_str("error parsing interpolated view origin: ", e)),
        };
        proof {
            lemma_vector_shift(s, 80);
            assert(reader@ =~= s.skip(104));
        }
        let inter_view_angles = match Vector3F64::from_readable(reader) {
            Ok(v) => v,
            Err(e) => return Err(join_str("error parsing interpolated view angles: ", e)),
        };
        proof {
            lemma_vector_shift(s, 104);
            assert(reader@ =~= s.skip(128));
        }
        let inter_local_view_angles = match Vector3F64::from_readable(reader) {
            Ok(v) => v,
            Err(e) => return Err(join_str("error parsing interpolated local view angles: ", e)),
        };
        proof {
            lemma_vector_shift(s, 128);
            assert(reader@ =~= s.skip(152));
        }
        Ok(CommandInfo {
            flags,
            view_origin,
            view_angles,
            local_view_angles,
            inter_view_origin,
            inter_view_angles,
            inter_local_view_angles,
        })
    }
}

/// The header of a packet frame.
#[derive(Debug, Clone, Copy, PartialEq, Eq)]
pub struct Header {
    pub command_info: CommandInfo,
    pub in_seq: i32,
    pub out_seq: i32,
    pub data_length: i32,
}

/// The packet header stored at the start of `s`.
pub open spec fn header_at(s: Seq<u8>) -> Header {
    Header {
        command_info: command_info_at(s),
        in_seq: le_value(s.subrange(152, 156)) as i32,
        out_seq: le_value(s.subrange(156, 160)) as i32,
        data_length: le_value(s.subrange(160, 164)) as i32,
    }
}

/// Why a packet header cannot be read from `len` bytes (fewer than 164).
pub open spec fn header_error(len: nat) -> Seq<char> {
    if len < 152 {
        "error occured parsing command info: "@ + command_info_error(len)
    } else if len < 156 {
        "error occured reading in sequence: "@ + "couldn't read requested bytes from buffer"@
    } else if len < 160 {
        "error occured reading out sequence: "@ + "couldn't read requested bytes from buffer"@
    } else {
        "error occured reading data length: "@ + "couldn't read requested bytes from buffer"@
    }
}

impl Header {
    /// Reads a packet header: a command info and three 32-bit integers.
    pub fn from_readable(reader: &mut ByteReader) -> (r: Result<Self, String>)
        requires
            old(reader).wf(),
        ensures
            final(reader).wf(),
            old(reader)@.len() >= 164 ==> r == Ok::<Header, String>(header_at(old(reader)@))
                && final(reader)@ == old(reader)@.skip(164),
            old(reader)@.len() < 164 ==> (r matches Err(e) && e@ == header_error(old(reader)@.len()))
                && final(reader)@ == Seq::<u8>::empty(),
    {
        let ghost s = reader@;
        let command_info = match CommandInfo::from_readable(reader) {
            Ok(ci) => ci,
            Err(e) => return Err(join_str("error occured parsing command info: ", e.as_str())),
        };
        let in_seq = match parse_i32(reader) {
            Ok(n) => n,
            Err(e) => return Err(join_str("error occured reading in sequence: ", e)),
        };
        let out_seq = match parse_i32(reader) {
            Ok(n) => n,
            Err(e) => return Err(join_str("error occured reading out sequence: ", e)),
        };
        let data_length = match parse_i32(reader) {
            Ok(n) => n,
            Err(e) => return Err(join_str("error occured reading data length: ", e)),
        };
        proof {
            assert(s.skip(152).take(4) =~= s.subrange(152, 156));
            assert(s.skip(152).skip(4).take(4) =~= s.subrange(156, 160));
            assert(s.skip(152).skip(4).skip(4).take(4) =~= s.subrange(160, 164));
            assert(s.skip(152).skip(4).skip(4).skip(4) =~= s.skip(164));
        }
        Ok(Header { command_info, in_seq, out_seq, data_length })
    }
}

/// A packet frame before its messages are decoded: the header and the bytes.
pub struct PacketIndex {
    pub header: Header,
    pub data: Vec<u8>,
}

/// Reading a packet frame from the start of `s`: the header and the bytes,
/// or why not, and the bytes left.
pub open spec fn packet_index_spec(s: Seq<u8>) -> (Result<(Header, Seq<u8>), Seq<char>>, Seq<u8>) {
    if s.len() < 164 {
        (Err(header_error(s.len())), Seq::empty())
    } else {
        let h = header_at(s);
        let rest = s.skip(164);
        if h.data_length < 0 {
            (Err("negative data length"@), rest)
        } else if rest.len() < h.data_length {
            (Err("couldn't read data into buffer"@), Seq::empty())
        } else {
            (Ok((h, rest.take(h.data_length as int))), rest.skip(h.data_length as int))
        }
    }
}

impl PacketIndex {
    /// Reads a packet header and the `data_length` bytes that follow it.  A
    /// negative length is refused.
    pub fn from_readable(reader: &mut ByteReader) -> (r: Result<Self, String>)
        requires
            old(reader).wf(),
        ensures
            final(reader).wf(),
            final(reader)@ == packet_index_spec(old(reader)@).1,
            match packet_index_spec(old(reader)@).0 {
                Ok((h, d)) => r matches Ok(pi) && pi.header == h && pi.data@ == d,
                Err(e) => r matches Err(x) && x@ == e,
            },
    {
        let header = Header::from_readable(reader)?;
        if header.data_length < 0 {
            return Err("negative data length".to_owned());
        }
        match reader.read_exact(header.data_length as usize) {
            Some(data) => Ok(PacketIndex { header, data }),
            None => Err("couldn't read data into buffer".to_owned()),
        }
    }
}

/// Why a network or user message could not be decoded.
#[derive(Debug)]
pub enum ParseMessageErr {
    InvalidOrCorrupt(EventData),
    UnknownCommand(u64),
}

/// What decoding a message noticed without failing: fields it does not
/// know, mandatory fields that were absent, and the same for each embedded
/// message, named by its field.
#[derive(Debug)]
pub struct FromProtobufMessagesWarnings {
    pub unknown_fields: Vec<ProtobufMessage>,
    pub missing_fields: Vec<(u8, &'static str)>,
    pub sub_warnings: Vec<(&'static str, FromProtobufMessagesWarnings)>,
}

/// The model of the warnings of a decoded message.
pub struct Warnings {
    pub unknown: Seq<WireField>,
    pub missing: Seq<(u8, Seq<char>)>,
    pub sub: Seq<(Seq<char>, Warnings)>,
}

/// The model of decoding warnings.
pub open spec fn warnings_view(w: FromProtobufMessagesWarnings) -> Warnings
    decreases w,
{
    Warnings {
        unknown: fields_view(w.unknown_fields@),
        missing: w.missing_fields@.map_values(|p: (u8, &'static str)| (p.0, p.1@)),
        sub: Seq::new(
            w.sub_warnings@.len(),
            |i: int|
                if 0 <= i < w.sub_warnings@.len() {
                    (w.sub_warnings@[i].0@, warnings_view(w.sub_warnings@[i].1))
                } else {
                    (Seq::empty(), Warnings { unknown: Seq::empty(), missing: Seq::empty(), sub: Seq::empty() })
                },
        ),
    }
}

/// Whether warnings hold anything, here or in an embedded message.
pub open spec fn has_any(w: Warnings) -> bool
    decreases w,
{
    w.unknown.len() > 0 || w.missing.len() > 0 || any_sub_has(w.sub, w.sub.len())
}

/// Whether one of the first `n` embedded warnings holds anything.
pub open spec fn any_sub_has(sub: Seq<(Seq<char>, Warnings)>, n: nat) -> bool
    decreases sub, n,
{
    if n == 0 || n > sub.len() {
        false
    } else {
        proof {
            assert(decreases_to!(sub => sub[n - 1]));
        }
        any_sub_has(sub, (n - 1) as nat) || has_any(sub[n - 1].1)
    }
}

proof fn lemma_any_sub_has_grows(sub: Seq<(Seq<char>, Warnings)>, n: nat, m: nat)
    requires
        n <= m <= sub.len(),
        any_sub_has(sub, n),
    ensures
        any_sub_has(sub, m),
    decreases m - n,
{
    if n < m {
        lemma_any_sub_has_grows(sub, n, (m - 1) as nat);
    }
}

/// One of the first `n` embedded warnings holds something exactly when
/// some embedded warning below `n` does.
proof fn lemma_any_sub_has_exists(sub: Seq<(Seq<char>, Warnings)>, n: nat)
    requires
        n <= sub.len(),
    ensures
        any_sub_has(sub, n) <==> exists|i: int| 0 <= i < n && #[trigger] has_any(sub[i].1),
    decreases n,
{
    if n > 0 {
        lemma_any_sub_has_exists(sub, (n - 1) as nat);
        if any_sub_has(sub, (n - 1) as nat) {
            let i = choose|i: int| 0 <= i < n - 1 && #[trigger] has_any(sub[i].1);
            assert(0 <= i < n && has_any(sub[i].1));
        }
        if has_any(sub[n - 1].1) {
            assert(has_any(sub[n - 1].1));
        }
    }
}

/// `has_warnings` is true exactly when there is an unknown field or a
/// missing field, or some embedded warnings have warnings themselves (to
/// any depth).
pub proof fn law_has_warnings(w: FromProtobufMessagesWarnings)
    ensures
        has_any(warnings_view(w)) <==> (w.unknown_fields@.len() > 0 || w.missing_fields@.len() > 0 || exists|i: int|
            0 <= i < w.sub_warnings@.len() && #[trigger] has_any(warnings_view(w.sub_warnings@[i].1))),
{
    let v = warnings_view(w);
    lemma_any_sub_has_exists(v.sub, v.sub.len());
    assert forall|i: int| 0 <= i < w.sub_warnings@.len() implies #[trigger] v.sub[i].1 == warnings_view(
        w.sub_warnings@[i].1,
    ) by {}
    if exists|i: int| 0 <= i < w.sub_warnings@.len() && #[trigger] has_any(warnings_view(w.sub_warnings@[i].1)) {
        let i = choose|i: int| 0 <= i < w.sub_warnings@.len() && #[trigger] has_any(warnings_view(w.sub_warnings@[i].1));
        assert(v.sub[i].1 == warnings_view(w.sub_warnings@[i].1));
        assert(has_any(v.sub[i].1));
    }
    if exists|i: int| 0 <= i < v.sub.len() && #[trigger] has_any(v.sub[i].1) {
        let i = choose|i: int| 0 <= i < v.sub.len() && #[trigger] has_any(v.sub[i].1);
        assert(v.sub[i].1 == warnings_view(w.sub_warnings@[i].1));
    }
}

impl FromProtobufMessagesWarnings {
    /// Whether there is any warning, here or in an embedded message.
    pub fn has_warnings(&self) -> (r: bool)
        ensures
            r == has_any(warnings_view(*self)),
        decreases *self,
    {
        if self.unknown_fields.len() > 0 || self.missing_fields.len() > 0 {
            return true;
        }
        let ghost w = warnings_view(*self);
        let mut i: usize = 0;
        while i < self.sub_warnings.len()
            invariant
                i <= self.sub_warnings@.len(),
                w == warnings_view(*self),
                w.sub.len() == self.sub_warnings@.len(),
                !any_sub_has(w.sub, i as nat),
            decreases self.sub_warnings@.len() - i,
        {
            proof {
                assert(decreases_to!(*self => self.sub_warnings));
            }
            if self.sub_warnings[i].1.has_warnings() {
                proof {
                    assert(w.sub[i as int].1 == warnings_view(self.sub_warnings@[i as int].1));
                    assert(any_sub_has(w.sub, (i + 1) as nat));
                    lemma_any_sub_has_grows(w.sub, (i + 1) as nat, w.sub.len());
                }
                return true;
            }
            i = i + 1;
        }
        false
    }
}

/// The outcome of decoding one message of a packet: the message and its
/// warnings, or the error.
#[derive(Debug)]
pub struct MessageParseReturn {
    pub message: Option<DecodedMessage>,
    pub warnings: Option<FromProtobufMessagesWarnings>,
    pub err: Option<ParseMessageErr>,
}

/// Whether an outcome is the one its model describes.
pub open spec fn return_matches(r: MessageParseReturn, m: Result<(MessageModel, Warnings), MessageFailure>) -> bool {
    match m {
        Ok((msg, w)) => {
            &&& r.message matches Some(x) && x@ == msg
            &&& r.warnings matches Some(ww) && warnings_view(ww) == w
            &&& r.err is None
        },
        Err(f) => {
            &&& r.message is None
            &&& r.warnings is None
            &&& r.err matches Some(e) && failure_matches(e, f)
        },
    }
}

/// The outcomes of decoding every framed message of `s`, in order.
pub open spec fn packet_messages_spec(specs: Seq<MessageSpec>, s: Seq<u8>) -> Seq<Result<(MessageModel, Warnings), MessageFailure>>
    decreases s.len(),
{
    if s.len() == 0 {
        Seq::empty()
    } else {
        let (r, rest) = spec_framed_message(specs, s);
        if rest.len() < s.len() {
            seq![r] + packet_messages_spec(specs, rest)
        } else {
            seq![r]
        }
    }
}

/// Whether decoded packet data is the decoding of the given header and bytes.
pub open spec fn packet_data_matches(pd: PacketData, specs: Seq<MessageSpec>, h: Header, data: Seq<u8>) -> bool {
    &&& pd.header == h
    &&& pd.network_messages@.len() == packet_messages_spec(specs, data).len()
    &&& forall|i: int| 0 <= i < pd.network_messages@.len() ==> return_matches(
        #[trigger] pd.network_messages@[i],
        packet_messages_spec(specs, data)[i],
    )
}

/// The decoded messages of a packet frame.
#[derive(Debug)]
pub struct PacketData {
    pub header: Header,
    pub network_messages: Vec<MessageParseReturn>,
}

impl PacketData {
    /// Decodes every framed network message of a packet, keeping going
    /// after a message that cannot be decoded.
    pub fn from_packet_index(packet_index: PacketIndex, net: &MessageTable) -> (r: Self)
        ensures
            packet_data_matches(r, net.messages@, packet_index.header, packet_index.data@),
    {
        let header = packet_index.header;
        let ghost s = packet_index.data@;
        let mut data_reader = ByteReader::new(packet_index.data.as_slice());
        let mut network_messages: Vec<MessageParseReturn> = Vec::new();
        while data_reader.buf_len() > 0
            invariant
                data_reader.wf(),
                packet_messages_spec(net.messages@, s) =~= packet_messages_spec(net.messages@, s).take(
                    network_messages@.len() as int,
                ) + packet_messages_spec(net.messages@, data_reader@),
                network_messages@.len() <= packet_messages_spec(net.messages@, s).len(),
                forall|i: int| 0 <= i < network_messages@.len() ==> return_matches(
                    #[trigger] network_messages@[i],
                    packet_messages_spec(net.messages@, s)[i],
                ),
            decreases data_reader@.len(),
        {
            let ghost before = data_reader@;
            let ghost all = packet_messages_spec(net.messages@, s);
            let ghost k = network_messages@.len();
            proof {
                lemma_framed_message_consumes(net.messages@, before);
            }
            let net_result = net.parse_from_reader(&mut data_reader);
            let ret = match net_result {
                Ok((msg, warn)) => MessageParseReturn { message: Some(msg), warnings: Some(warn), err: None },
                Err(e) => MessageParseReturn { message: None, warnings: None, err: Some(e) },
            };
            proof {
                let rest_spec = packet_messages_spec(net.messages@, data_reader@);
                assert(packet_messages_spec(net.messages@, before) == seq![spec_framed_message(net.messages@, before).0] + rest_spec);
                assert(all[k as int] == spec_framed_message(net.messages@, before).0);
                assert(all.take(k as int + 1) =~= all.take(k as int).push(all[k as int]));
            }
            network_messages.push(ret);
        }
        proof {
            assert(packet_messages_spec(net.messages@, data_reader@).len() == 0);
        }
        PacketData { header, network_messages }
    }
}

/// The little-endian 64-bit word at byte `off` of `s`.
pub open spec fn word_at(s: Seq<u8>, off: int) -> u64 {
    le_value(s.subrange(off, off + 8)) as u64
}

/// The vector stored at byte `a` is the three words that follow it.
proof fn lemma_vector_words(s: Seq<u8>, a: int)
    requires
        0 <= a,
        a + 24 <= s.len(),
    ensures
        vector_at(s.subrange(a, a + 24)) == (Vector3F64 { x: word_at(s, a), y: word_at(s, a + 8), z: word_at(s, a + 16) }),
{
    assert(s.subrange(a, a + 24).subrange(0, 8) =~= s.subrange(a, a + 8));
    assert(s.subrange(a, a + 24).subrange(8, 16) =~= s.subrange(a + 8, a + 16));
    assert(s.subrange(a, a + 24).subrange(16, 24) =~= s.subrange(a + 16, a + 24));
}

/// The layout of the command info at the head of a packet header: a 64-bit
/// flags word, then six vectors of three little-endian 64-bit floats each, in
/// the order view origin (bytes 8..32), view angles (32..56), local view
/// angles (56..80), interpolated view origin (80..104), interpolated view
/// angles (104..128) and interpolated local view angles (128..152).
pub proof fn law_command_info_layout(s: Seq<u8>)
    requires
        s.len() >= 152,
    ensures
        header_at(s).command_info.flags == le_value(s.subrange(0, 8)) as i64,
        header_at(s).command_info.view_origin == (Vector3F64 { x: word_at(s, 8), y: word_at(s, 16), z: word_at(s, 24) }),
        header_at(s).command_info.view_angles == (Vector3F64 { x: word_at(s, 32), y: word_at(s, 40), z: word_at(s, 48) }),
        header_at(s).command_info.local_view_angles == (Vector3F64 { x: word_at(s, 56), y: word_at(s, 64), z: word_at(s, 72) }),
        header_at(s).command_info.inter_view_origin == (Vector3F64 { x: word_at(s, 80), y: word_at(s, 88), z: word_at(s, 96) }),
        header_at(s).command_info.inter_view_angles == (Vector3F64 {
            x: word_at(s, 104),
            y: word_at(s, 112),
            z: word_at(s, 120),
        }),
        header_at(s).command_info.inter_local_view_angles == (Vector3F64 {
            x: word_at(s, 128),
            y: word_at(s, 136),
            z: word_at(s, 144),
        }),
{
    lemma_vector_words(s, 8);
    lemma_vector_words(s, 32);
    lemma_vector_words(s, 56);
    lemma_vector_words(s, 80);
    lemma_vector_words(s, 104);
    lemma_vector_words(s, 128);
}

} // verus!

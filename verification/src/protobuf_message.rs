use vstd::prelude::*;
use vstd::arithmetic::power2::pow2;
use crate::reader::ByteReader;
use crate::event_data::EventData;
use crate::bitmath::le_value;
use crate::parse_tools::{parse_varint, parse_u32, ParseVarIntExit, spec_varint, varint_end, varint_sum};

pub mod wire_type;

verus! {

/// The payload of one protobuf field as it is on the wire.
#[derive(Debug, PartialEq, Eq, PartialOrd, Ord, Clone)]
pub enum WireMessage {
    VarInt(u64),
    Length(Vec<u8>),
    Fixed32(u32),
}

/// One protobuf field: its number and its payload.
#[derive(Debug, PartialEq, Eq, PartialOrd, Ord, Clone)]
pub struct ProtobufMessage {
    pub message: WireMessage,
    pub field_number: u8,
}

/// Why a protobuf field could not be read.
#[derive(Debug)]
pub enum FromReadableErr {
    BufferErr(EventData),
    InvalidOrCorrupt(EventData),
    UnsupportedWireType(EventData, u8),
}

/// The model of a wire payload.
pub enum WireValue {
    VarInt(u64),
    Length(Seq<u8>),
    Fixed32(u32),
}

/// The model of a protobuf field.
pub struct WireField {
    pub value: WireValue,
    pub field_number: u8,
}

/// The model of a read failure: its kind and its details.
pub enum ReadFailure {
    Buffer(Seq<char>),
    Invalid(Seq<char>),
    Unsupported(Seq<char>, u8),
}

impl View for WireMessage {
    type V = WireValue;

    open spec fn view(&self) -> WireValue {
        match self {
            WireMessage::VarInt(v) => WireValue::VarInt(*v),
            WireMessage::Length(v) => WireValue::Length(v@),
            WireMessage::Fixed32(v) => WireValue::Fixed32(*v),
        }
    }
}

impl View for ProtobufMessage {
    type V = WireField;

    open spec fn view(&self) -> WireField {
        WireField { value: self.message@, field_number: self.field_number }
    }
}

impl View for FromReadableErr {
    type V = ReadFailure;

    open spec fn view(&self) -> ReadFailure {
        match self {
            FromReadableErr::BufferErr(e) => ReadFailure::Buffer(e.details@),
            FromReadableErr::InvalidOrCorrupt(e) => ReadFailure::Invalid(e.details@),
            FromReadableErr::UnsupportedWireType(e, n) => ReadFailure::Unsupported(e.details@, *n),
        }
    }
}

/// The event that a read failure carries.
pub open spec fn failure_event(e: FromReadableErr) -> EventData {
    match e {
        FromReadableErr::BufferErr(ev) => ev,
        FromReadableErr::InvalidOrCorrupt(ev) => ev,
        FromReadableErr::UnsupportedWireType(ev, _) => ev,
    }
}

/// Whether an event was raised by the field reader: in its source file,
/// with no line number and no function name recorded.
pub open spec fn raised_by_field_reader(ev: EventData) -> bool {
    &&& ev.file_name@ == "src/protobuf_message.rs"@
    &&& ev.line_number == 0
    &&& ev.function_name@ == Seq::<char>::empty()
}

/// The models of a sequence of fields.
pub open spec fn fields_view(v: Seq<ProtobufMessage>) -> Seq<WireField> {
    v.map_values(|m: ProtobufMessage| m@)
}

/// The field that starts `s` (or why there is none) and the bytes left
/// after reading it.  The low three bits of the leading tag give the wire
/// type, the bits above them (truncated to eight bits) the field number.
pub open spec fn spec_message(s: Seq<u8>) -> (Result<WireField, ReadFailure>, Seq<u8>) {
    let (tag, r1) = spec_varint(s);
    match tag {
        None => (Err(ReadFailure::Invalid("bad tag varint read"@)), r1),
        Some(t) => {
            let wt = (t % 8) as u8;
            let field_number = (t / 8) as u8;
            if wt == wire_type::VARINT {
                let (v, r2) = spec_varint(r1);
                match v {
                    None => (Err(ReadFailure::Invalid("bad varint read, message"@)), r2),
                    Some(x) => (Ok(WireField { value: WireValue::VarInt(x), field_number }), r2),
                }
            } else if wt == wire_type::LENGTH {
                let (v, r2) = spec_varint(r1);
                match v {
                    None => (Err(ReadFailure::Invalid("bad varint read, len"@)), r2),
                    Some(len) => if len <= r2.len() {
                        (
                            Ok(WireField { value: WireValue::Length(r2.take(len as int)), field_number }),
                            r2.skip(len as int),
                        )
                    } else {
                        (Err(ReadFailure::Buffer("length data read"@)), Seq::<u8>::empty())
                    },
                }
            } else if wt == wire_type::FIXED32 {
                if r1.len() >= 4 {
                    (
                        Ok(WireField { value: WireValue::Fixed32(le_value(r1.take(4)) as u32), field_number }),
                        r1.skip(4),
                    )
                } else {
                    (
                        Err(ReadFailure::Invalid("couldn't read requested bytes from buffer"@)),
                        Seq::<u8>::empty(),
                    )
                }
            } else {
                (Err(ReadFailure::Unsupported("bad wire type"@, wt)), r1)
            }
        },
    }
}

/// Reading a variable-length integer from a non-empty input consumes something.
pub proof fn lemma_varint_consumes(s: Seq<u8>)
    requires
        s.len() > 0,
    ensures
        spec_varint(s).1.len() < s.len(),
        spec_varint(s).1 == s.skip(s.len() - spec_varint(s).1.len()),
{
    let j = varint_end(s, 0);
    if j == 10 {
        lemma_varint_end_bound(s, 0);
    } else if j >= s.len() {
        assert(s.skip(s.len() as int) =~= Seq::<u8>::empty());
    }
}

proof fn lemma_varint_end_bound(s: Seq<u8>, i: nat)
    requires
        i <= 9,
        varint_end(s, i) == 10,
    ensures
        s.len() >= 10,
    decreases 9 - i,
{
    if i < 9 && i < s.len() && s[i as int] >= 128 {
        lemma_varint_end_bound(s, i + 1);
    }
}

/// Reading a field from a non-empty input consumes something, and what is
/// left is a suffix of the input.
pub proof fn lemma_message_consumes(s: Seq<u8>)
    requires
        s.len() > 0,
    ensures
        spec_message(s).1.len() < s.len(),
        spec_message(s).1 == s.skip(s.len() - spec_message(s).1.len()),
{
    lemma_varint_consumes(s);
    let r1 = spec_varint(s).1;
    if r1.len() > 0 {
        lemma_varint_consumes(r1);
    }
    let r2 = spec_varint(r1).1;
    assert(forall|k: int| 0 <= k <= r2.len() ==> #[trigger] r2.skip(k) =~= s.skip(s.len() - (r2.len() - k)));
    assert(forall|k: int| 0 <= k <= r1.len() ==> #[trigger] r1.skip(k) =~= s.skip(s.len() - (r1.len() - k)));
    assert(s.skip(s.len() as int) =~= Seq::<u8>::empty());
}

/// The fields that make up `s`, or the first failure met reading them.
pub open spec fn spec_messages(s: Seq<u8>) -> Result<Seq<WireField>, ReadFailure>
    decreases s.len(),
{
    if s.len() == 0 {
        Ok(Seq::empty())
    } else {
        let (r, rest) = spec_message(s);
        match r {
            Err(e) => Err(e),
            Ok(m) => if rest.len() < s.len() {
                match spec_messages(rest) {
                    Ok(ms) => Ok(seq![m] + ms),
                    Err(e) => Err(e),
                }
            } else {
                Err(e_never())
            },
        }
    }
}

/// The bytes left once fields have been read from `s` until it is used up
/// or a field cannot be read: nothing in the first case, what the failed
/// read left in the second.
pub open spec fn messages_rest(s: Seq<u8>) -> Seq<u8>
    decreases s.len(),
{
    if s.len() == 0 {
        s
    } else {
        let (r, rest) = spec_message(s);
        match r {
            Err(_) => rest,
            Ok(_) => if rest.len() < s.len() {
                messages_rest(rest)
            } else {
                rest
            },
        }
    }
}

/// When every field can be read, nothing is left.
pub proof fn lemma_messages_rest_empty(s: Seq<u8>)
    requires
        spec_messages(s) is Ok,
    ensures
        messages_rest(s) == Seq::<u8>::empty(),
    decreases s.len(),
{
    if s.len() > 0 {
        lemma_message_consumes(s);
        lemma_messages_rest_empty(spec_message(s).1);
    }
}

/// A failure that `spec_messages` never yields (reading always consumes).
pub open spec fn e_never() -> ReadFailure {
    ReadFailure::Invalid(Seq::empty())
}

impl ProtobufMessage {
    /// Reads one field.
    pub fn from_readable(reader: &mut ByteReader) -> (r: Result<ProtobufMessage, FromReadableErr>)
        requires
            old(reader).wf(),
        ensures
            final(reader).wf(),
            final(reader)@ == spec_message(old(reader)@).1,
            match spec_message(old(reader)@).0 {
                Ok(m) => r matches Ok(x) && x@ == m,
                Err(e) => r matches Err(x) && x@ == e,
            },
            r matches Err(x) ==> raised_by_field_reader(failure_event(x)),
    {
        let tag = match parse_varint(reader) {
            ParseVarIntExit::Value(n) => n,
            _ => return Err(FromReadableErr::InvalidOrCorrupt(EventData::new("bad tag varint read", "src/protobuf_message.rs"))),
        };
        let wt: u8 = (tag & 0b111) as u8;
        assert(tag & 0b111 == tag % 8) by (bit_vector);
        let message = if wt == wire_type::VARINT {
            WireMessage::VarInt(match parse_varint(reader) {
                ParseVarIntExit::Value(n) => n,
                _ => return Err(FromReadableErr::InvalidOrCorrupt(EventData::new("bad varint read, message", "src/protobuf_message.rs"))),
            })
        } else if wt == wire_type::LENGTH {
            let len = match parse_varint(reader) {
                ParseVarIntExit::Value(n) => n,
                _ => return Err(FromReadableErr::InvalidOrCorrupt(EventData::new("bad varint read, len", "src/protobuf_message.rs"))),
            };
            let avail = reader.buf_len();
            if len > avail as u64 {
                reader.consume_all();
                return Err(FromReadableErr::BufferErr(EventData::new("length data read", "src/protobuf_message.rs")));
            }
            match reader.read_exact(len as usize) {
                Some(v) => WireMessage::Length(v),
                None => return Err(FromReadableErr::BufferErr(EventData::new("length data read", "src/protobuf_message.rs"))),
            }
        } else if wt == wire_type::FIXED32 {
            WireMessage::Fixed32(match parse_u32(reader) {
                Ok(n) => n,
                Err(e) => return Err(FromReadableErr::InvalidOrCorrupt(EventData::new(e, "src/protobuf_message.rs"))),
            })
        } else {
            return Err(FromReadableErr::UnsupportedWireType(EventData::new("bad wire type", "src/protobuf_message.rs"), wt));
        };
        let field_number = ((tag & !0b111u64) >> 3) as u8;
        assert((tag & !0b111u64) >> 3 == tag / 8) by (bit_vector);
        Ok(ProtobufMessage { message, field_number })
    }

    /// Reads fields until the bytes are used up.
    pub fn many_from_vec(raw_data: &Vec<u8>) -> (r: Result<Vec<ProtobufMessage>, FromReadableErr>)
        ensures
            match spec_messages(raw_data@) {
                Ok(ms) => r matches Ok(v) && fields_view(v@) == ms,
                Err(e) => r matches Err(x) && x@ == e,
            },
            r matches Err(x) ==> raised_by_field_reader(failure_event(x)),
    {
        let mut reader = ByteReader::new(raw_data.as_slice());
        let mut msgs: Vec<ProtobufMessage> = Vec::new();
        let ghost s = raw_data@;
        while reader.buf_len() > 0
            invariant
                reader.wf(),
                s == raw_data@,
                match spec_messages(reader@) {
                    Ok(ms) => spec_messages(s) == Ok::<Seq<WireField>, ReadFailure>(fields_view(msgs@) + ms),
                    Err(e) => spec_messages(s) == Err::<Seq<WireField>, ReadFailure>(e),
                },
            decreases reader@.len(),
        {
            let ghost before = reader@;
            proof {
                lemma_message_consumes(before);
            }
            match Self::from_readable(&mut reader) {
                Ok(val) => {
                    proof {
                        assert(fields_view(msgs@.push(val)) =~= fields_view(msgs@) + seq![val@]);
                        match spec_messages(reader@) {
                            Ok(ms) => {
                                assert(fields_view(msgs@) + (seq![val@] + ms) =~= fields_view(msgs@.push(val)) + ms);
                            },
                            Err(_) => {},
                        }
                    }
                    msgs.push(val);
                },
                Err(e) => return Err(e),
            }
        }
        proof {
            assert(fields_view(msgs@) + Seq::<WireField>::empty() =~= fields_view(msgs@));
        }
        Ok(msgs)
    }
}

/// The end of a variable-length integer that ends inside `a` does not
/// depend on what follows `a`.
proof fn lemma_varint_end_extend(a: Seq<u8>, b: Seq<u8>, i: nat)
    requires
        varint_end(a, i) < a.len(),
        varint_end(a, i) < 10,
    ensures
        varint_end(a + b, i) == varint_end(a, i),
    decreases 10 - i,
{
    if i < 10 && i < a.len() && a[i as int] >= 128 {
        lemma_varint_end_extend(a, b, i + 1);
    }
    if i < a.len() {
        assert((a + b)[i as int] == a[i as int]);
    }
}

/// The end of a variable-length integer is at most its tenth byte.
proof fn lemma_varint_end_at_most_ten(s: Seq<u8>, i: nat)
    requires
        i <= 10,
    ensures
        varint_end(s, i) <= 10,
    decreases 10 - i,
{
    if i < 10 && i < s.len() && s[i as int] >= 128 {
        lemma_varint_end_at_most_ten(s, i + 1);
    }
}

/// The groups of the first `m` bytes do not depend on what follows them.
proof fn lemma_varint_sum_extend(a: Seq<u8>, b: Seq<u8>, m: nat)
    requires
        m <= a.len(),
    ensures
        varint_sum(a + b, m) == varint_sum(a, m),
    decreases m,
{
    if m > 0 {
        lemma_varint_sum_extend(a, b, (m - 1) as nat);
        assert((a + b)[m - 1] == a[m - 1]);
    }
}

/// A variable-length integer read from `a` is read the same from `a`
/// followed by `b`, and `b` is left after what was left.
proof fn lemma_spec_varint_extend(a: Seq<u8>, b: Seq<u8>)
    requires
        spec_varint(a).0 is Some,
    ensures
        spec_varint(a + b) == (spec_varint(a).0, spec_varint(a).1 + b),
{
    let j = varint_end(a, 0);
    lemma_varint_end_at_most_ten(a, 0);
    lemma_varint_end_extend(a, b, 0);
    lemma_varint_sum_extend(a, b, j + 1);
    assert((a + b).skip(j as int + 1) =~= a.skip(j as int + 1) + b);
}

/// A field read from `a` is read the same from `a` followed by `b`, and `b`
/// is left after what was left.
proof fn lemma_spec_message_extend(a: Seq<u8>, b: Seq<u8>)
    requires
        spec_message(a).0 is Ok,
    ensures
        spec_message(a + b) == (spec_message(a).0, spec_message(a).1 + b),
{
    lemma_spec_varint_extend(a, b);
    let r1 = spec_varint(a).1;
    let t = spec_varint(a).0->Some_0;
    let wt = (t % 8) as u8;
    if wt == wire_type::VARINT || wt == wire_type::LENGTH {
        lemma_spec_varint_extend(r1, b);
        let r2 = spec_varint(r1).1;
        if wt == wire_type::LENGTH {
            let len = spec_varint(r1).0->Some_0;
            assert((r2 + b).take(len as int) =~= r2.take(len as int));
            assert((r2 + b).skip(len as int) =~= r2.skip(len as int) + b);
        }
    } else if wt == wire_type::FIXED32 {
        assert((r1 + b).take(4) =~= r1.take(4));
        assert((r1 + b).skip(4) =~= r1.skip(4) + b);
    }
}

/// Reading the fields of two buffers one after the other gives the fields
/// of the buffers joined: when both can be read, the fields of `a + b` are
/// those of `a` followed by those of `b`.
pub proof fn law_fields_of_concatenation(a: Seq<u8>, b: Seq<u8>)
    requires
        spec_messages(a) is Ok,
        spec_messages(b) is Ok,
    ensures
        spec_messages(a + b) == Ok::<Seq<WireField>, ReadFailure>(spec_messages(a)->Ok_0 + spec_messages(b)->Ok_0),
    decreases a.len(),
{
    if a.len() == 0 {
        assert(a + b =~= b);
        assert(spec_messages(a)->Ok_0 + spec_messages(b)->Ok_0 =~= spec_messages(b)->Ok_0);
    } else {
        let (r, ra) = spec_message(a);
        let m = r->Ok_0;
        lemma_spec_message_extend(a, b);
        law_fields_of_concatenation(ra, b);
        let xs = spec_messages(ra)->Ok_0;
        let ys = spec_messages(b)->Ok_0;
        assert(ra + b == spec_message(a + b).1);
        assert(seq![m] + (xs + ys) =~= (seq![m] + xs) + ys);
    }
}

} // verus!
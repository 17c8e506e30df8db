use vstd::prelude::*;
use vstd::utf8::{valid_utf8, decode_utf8, encode_utf8, encode_utf8_valid_utf8, encode_utf8_decode_utf8};
use crate::naming::{lemma_encode_push, lemma_encode_small};
use crate::event_data::EventData;
use crate::parse_tools::utf8_to_string;
use crate::protobuf_message::{
    ProtobufMessage, WireMessage, WireField, WireValue, FromReadableErr, ReadFailure, fields_view,
    spec_messages, spec_message, e_never, lemma_message_consumes, lemma_varint_consumes, messages_rest,
    lemma_messages_rest_empty,
};
use crate::demo_file::packet::{FromProtobufMessagesWarnings, Warnings, warnings_view, ParseMessageErr};
use crate::reader::ByteReader;
use crate::parse_tools::{parse_varint, ParseVarIntExit, spec_varint};
use crate::demo_file::packet::protobuf_value::{
    ProtobufValue, ProtobufField, Value, value_view, fields_model, values_model, lemma_repeated_view,
    lemma_proto_view,
};

verus! {

/// How a field of a message is encoded and decoded.
#[derive(Clone, Copy, PartialEq, Eq, Structural, Debug)]
pub enum FieldKind {
    /// A variable-length integer.
    VarInt,
    /// Raw length-delimited bytes.
    Length,
    /// An embedded message, length-delimited.
    Proto,
    /// A 32-bit integer.
    Fixed32,
    /// UTF-8 text, length-delimited.
    String,
    /// A 32-bit float (kept as its bits).
    Float32,
}

/// The declaration of one field of a message.
pub struct FieldSpec {
    pub name: &'static str,
    pub id: u8,
    pub kind: FieldKind,
    /// An optional field that is absent is not reported as missing.
    pub optional: bool,
    /// A repeated field collects every occurrence; any other field keeps the last one.
    pub repeated: bool,
    /// The fields of an embedded message (`kind == Proto`).
    pub sub: Vec<FieldSpec>,
}

/// The declaration of a message: its name, its id and its fields.
pub struct MessageSpec {
    pub name: &'static str,
    pub id: u64,
    pub fields: Vec<FieldSpec>,
}

/// Whether a message declaration has the given name, id and number of fields.
pub open spec fn message_declared(m: MessageSpec, name: Seq<char>, id: u64, n_fields: nat) -> bool {
    &&& m.name@ == name
    &&& m.id == id
    &&& m.fields@.len() == n_fields
}

/// Whether a field declaration has the given name, number, kind, flags and
/// number of embedded fields.
pub open spec fn field_declared(
    f: FieldSpec,
    name: Seq<char>,
    id: u8,
    kind: FieldKind,
    optional: bool,
    repeated: bool,
    n_sub: nat,
) -> bool {
    &&& f.name@ == name
    &&& f.id == id
    &&& f.kind == kind
    &&& f.optional == optional
    &&& f.repeated == repeated
    &&& f.sub@.len() == n_sub
}

/// The decimal digits of `n`.
pub open spec fn decimal(n: nat) -> Seq<char>
    decreases n,
{
    if n < 10 {
        seq![(48 + n) as char]
    } else {
        decimal(n / 10).push((48 + n % 10) as char)
    }
}

/// Appends the digit `d` to a UTF-8 text.
fn push_digit(out: &mut Vec<u8>, d: u8, Ghost(chars): Ghost<Seq<char>>)
    requires
        d < 10,
        old(out)@ == encode_utf8(chars),
    ensures
        final(out)@ == encode_utf8(chars.push(((48 + d) as u8) as char)),
{
    let b: u8 = 48 + d;
    proof {
        lemma_encode_push(chars, b as char);
        lemma_encode_small(b);
    }
    out.push(b);
}

/// The decimal digits of a byte.
pub(crate) fn u8_to_decimal(n: u8) -> (s: String)
    ensures
        s@ == decimal(n as nat),
{
    let mut out: Vec<u8> = Vec::new();
    let ghost mut chars: Seq<char> = Seq::empty();
    proof {
        assert(encode_utf8(chars) =~= Seq::<u8>::empty());
    }
    if n >= 100 {
        push_digit(&mut out, n / 100, Ghost(chars));
        proof {
            chars = chars.push(((48 + n / 100) as u8) as char);
        }
    }
    if n >= 10 {
        push_digit(&mut out, (n / 10) % 10, Ghost(chars));
        proof {
            chars = chars.push(((48 + (n / 10) % 10) as u8) as char);
        }
    }
    push_digit(&mut out, n % 10, Ghost(chars));
    proof {
        chars = chars.push(((48 + n % 10) as u8) as char);
        reveal_with_fuel(decimal, 3);
        assert(chars =~= decimal(n as nat));
        encode_utf8_valid_utf8(chars);
        encode_utf8_decode_utf8(chars);
    }
    match utf8_to_string(out) {
        Some(s) => s,
        None => {
            proof {
                assert(false);
            }
            String::new()
        },
    }
}

/// The details of the event that a failure to read embedded fields becomes.
pub open spec fn failure_details(e: ReadFailure) -> Seq<char> {
    match e {
        ReadFailure::Buffer(d) => d,
        ReadFailure::Invalid(d) => d,
        ReadFailure::Unsupported(_, n) => "unsupported wire type: "@ + decimal(n as nat),
    }
}

/// The index of the first field (from index `i` on) with the given number.
pub open spec fn field_index(fields: Seq<FieldSpec>, id: u8, i: nat) -> Option<nat>
    decreases fields.len() - i,
{
    if i >= fields.len() {
        None
    } else if fields[i as int].id == id {
        Some(i)
    } else {
        field_index(fields, id, i + 1)
    }
}

/// The decoding state after some of the fields of a message: one slot per
/// declared field, the fields not declared, and the warnings of embedded messages.
pub struct DecodeState {
    pub slots: Seq<Value>,
    pub unknown: Seq<WireField>,
    pub subs: Seq<(Seq<char>, Warnings)>,
}

/// The state before any field: repeated fields hold an empty list, others nothing.
pub open spec fn initial_state(fields: Seq<FieldSpec>) -> DecodeState {
    DecodeState {
        slots: Seq::new(fields.len(), |i: int| if fields[i].repeated { Value::Repeated(Seq::empty()) } else { Value::Absent }),
        unknown: Seq::empty(),
        subs: Seq::empty(),
    }
}

/// The list held by a slot of a repeated field.
pub open spec fn list_of(v: Value) -> Seq<Value> {
    match v {
        Value::Repeated(l) => l,
        _ => Seq::empty(),
    }
}

/// Storing a value into slot `k`: appended for a repeated field, replacing otherwise.
pub open spec fn store(slots: Seq<Value>, k: int, repeated: bool, v: Value) -> Seq<Value> {
    if repeated {
        slots.update(k, Value::Repeated(list_of(slots[k]).push(v)))
    } else {
        slots.update(k, v)
    }
}

/// Whether a declared field received no value.
pub open spec fn is_missing(f: FieldSpec, v: Value) -> bool {
    if f.repeated {
        list_of(v).len() == 0
    } else {
        v is Absent
    }
}

/// The mandatory fields among the first `n` that received no value, in order.
pub open spec fn missing_fields(fields: Seq<FieldSpec>, slots: Seq<Value>, n: nat) -> Seq<(u8, Seq<char>)>
    decreases n,
{
    if n == 0 {
        Seq::empty()
    } else {
        let f = fields[n - 1];
        let rest = missing_fields(fields, slots, (n - 1) as nat);
        if !f.optional && is_missing(f, slots[n - 1]) {
            rest.push((f.id, f.name@))
        } else {
            rest
        }
    }
}

/// The value a declared field ends up with: an empty repeated field has none.
pub open spec fn out_value(f: FieldSpec, v: Value) -> Value {
    if f.repeated && list_of(v).len() == 0 {
        Value::Absent
    } else {
        v
    }
}

/// The decoded message: every declared field in order of declaration, with
/// its value, and the warnings.
pub open spec fn finalize(fields: Seq<FieldSpec>, st: DecodeState) -> (Seq<(Seq<char>, Value)>, Warnings) {
    (
        Seq::new(fields.len(), |i: int| (fields[i].name@, out_value(fields[i], st.slots[i]))),
        Warnings {
            unknown: st.unknown,
            missing: missing_fields(fields, st.slots, fields.len()),
            sub: st.subs,
        },
    )
}

/// The state after the first `n` fields of `msgs`, or the first failure.
pub open spec fn decode_prefix(fields: Seq<FieldSpec>, msgs: Seq<WireField>, n: nat) -> Result<DecodeState, Seq<char>>
    decreases fields, n,
{
    if n == 0 || n > msgs.len() {
        Ok(initial_state(fields))
    } else {
        match decode_prefix(fields, msgs, (n - 1) as nat) {
            Err(e) => Err(e),
            Ok(st) => {
                let m = msgs[n - 1];
                match field_index(fields, m.field_number, 0) {
                    None => Ok(DecodeState { slots: st.slots, unknown: st.unknown.push(m), subs: st.subs }),
                    Some(k) => if k >= fields.len() {
                        Ok(st)
                    } else {
                        let f = fields[k as int];
                        let put = |v: Value| DecodeState {
                            slots: store(st.slots, k as int, f.repeated, v),
                            unknown: st.unknown,
                            subs: st.subs,
                        };
                        match m.value {
                            WireValue::VarInt(x) => if f.kind == FieldKind::VarInt {
                                Ok(put(Value::VarInt(x)))
                            } else {
                                Err("bad protobuf type"@)
                            },
                            WireValue::Fixed32(x) => if f.kind == FieldKind::Fixed32 {
                                Ok(put(Value::Fixed32(x)))
                            } else if f.kind == FieldKind::Float32 {
                                Ok(put(Value::Float32(x)))
                            } else {
                                Err("bad protobuf type"@)
                            },
                            WireValue::Length(b) => if f.kind == FieldKind::Length {
                                Ok(put(Value::Length(b)))
                            } else if f.kind == FieldKind::String {
                                if valid_utf8(b) {
                                    Ok(put(Value::Str(decode_utf8(b))))
                                } else {
                                    Err("string field is not valid utf-8"@)
                                }
                            } else if f.kind == FieldKind::Proto {
                                match spec_messages(b) {
                                    Err(e) => Err(failure_details(e)),
                                    Ok(sub_msgs) => {
                                        proof {
                                            assert(decreases_to!(fields => fields[k as int]));
                                            assert(decreases_to!(fields[k as int] => fields[k as int].sub));
                                            assert(decreases_to!(fields[k as int].sub => fields[k as int].sub@));
                                        }
                                        match decode_prefix(f.sub@, sub_msgs, sub_msgs.len()) {
                                            Err(e) => Err(e),
                                            Ok(sst) => {
                                                let (vals, w) = finalize(f.sub@, sst);
                                                Ok(DecodeState {
                                                    slots: store(st.slots, k as int, f.repeated, Value::Proto(vals)),
                                                    unknown: st.unknown,
                                                    subs: st.subs.push((f.name@, w)),
                                                })
                                            },
                                        }
                                    },
                                }
                            } else {
                                Err("bad protobuf type"@)
                            },
                        }
                    },
                }
            },
        }
    }
}

/// Once decoding has failed, it stays failed with the same details.
pub proof fn lemma_prefix_err_sticks(fields: Seq<FieldSpec>, msgs: Seq<WireField>, m: nat, n: nat)
    requires
        m <= n <= msgs.len(),
        decode_prefix(fields, msgs, m) is Err,
    ensures
        decode_prefix(fields, msgs, n) == decode_prefix(fields, msgs, m),
    decreases n - m,
{
    if m < n {
        lemma_prefix_err_sticks(fields, msgs, m, (n - 1) as nat);
    }
}

/// Decoding a message's fields against its declared fields: the decoded
/// fields and the warnings, or the details of the first failure.
pub open spec fn decode_spec(fields: Seq<FieldSpec>, msgs: Seq<WireField>) -> Result<(Seq<(Seq<char>, Value)>, Warnings), Seq<char>> {
    match decode_prefix(fields, msgs, msgs.len()) {
        Ok(st) => Ok(finalize(fields, st)),
        Err(e) => Err(e),
    }
}

/// The model of the state held by the decoder.
pub open spec fn state_model(
    slots: Seq<ProtobufValue>,
    unknown: Seq<ProtobufMessage>,
    subs: Seq<(&'static str, FromProtobufMessagesWarnings)>,
) -> DecodeState {
    DecodeState {
        slots: values_model(slots),
        unknown: fields_view(unknown),
        subs: subs.map_values(|p: (&'static str, FromProtobufMessagesWarnings)| (p.0@, warnings_view(p.1))),
    }
}

/// The first declared field with the given number.
fn find_field(fields: &Vec<FieldSpec>, id: u8) -> (r: Option<usize>)
    ensures
        r matches Some(k) ==> field_index(fields@, id, 0) == Some(k as nat) && k < fields@.len(),
        r is None ==> field_index(fields@, id, 0) is None,
{
    let mut i: usize = 0;
    while i < fields.len()
        invariant
            i <= fields@.len(),
            field_index(fields@, id, 0) == field_index(fields@, id, i as nat),
        decreases fields@.len() - i,
    {
        if fields[i].id == id {
            return Some(i);
        }
        i = i + 1;
    }
    None
}

/// Stores a value into slot `k`.
fn put_value(slots: &mut Vec<ProtobufValue>, k: usize, repeated: bool, v: ProtobufValue)
    requires
        k < old(slots)@.len(),
        repeated ==> value_view(old(slots)@[k as int]) is Repeated,
    ensures
        values_model(final(slots)@) == store(values_model(old(slots)@), k as int, repeated, value_view(v)),
        final(slots)@.len() == old(slots)@.len(),
        forall|j: int| 0 <= j < final(slots)@.len() && j != k ==> final(slots)@[j] == old(slots)@[j],
        repeated ==> value_view(final(slots)@[k as int]) is Repeated,
{
    let ghost old_model = values_model(old(slots)@);
    let old_value = slots.remove(k);
    let new_value = if repeated {
        match old_value {
            ProtobufValue::Repeated(mut list) => {
                let ghost before = list;
                proof {
                    lemma_repeated_view(before);
                    assert(old_model[k as int] == value_view(old(slots)@[k as int]));
                }
                list.push(v);
                proof {
                    assert(values_model(list@) =~= values_model(before@).push(value_view(v)));
                    lemma_repeated_view(list);
                }
                ProtobufValue::Repeated(list)
            },
            _ => {
                proof {
                    assert(old_model[k as int] == value_view(old(slots)@[k as int]));
                }
                ProtobufValue::Repeated(Vec::new())
            },
        }
    } else {
        v
    };
    slots.insert(k, new_value);
    proof {
        assert(values_model(slots@) =~= store(values_model(old(slots)@), k as int, repeated, value_view(v)));
    }
}

/// The event that a failure to read embedded fields becomes.
fn read_failure_event(e: FromReadableErr) -> (ev: EventData)
    ensures
        ev.details@ == failure_details(e@),
{
    match e {
        FromReadableErr::BufferErr(ev) => ev,
        FromReadableErr::InvalidOrCorrupt(ev) => ev,
        FromReadableErr::UnsupportedWireType(_ev, n) => {
            let digits = u8_to_decimal(n);
            EventData::with_suffix("unsupported wire type: ", digits, "src/message_schema.rs")
        },
    }
}

/// Whether a slot leaves a declared field without a value.
fn slot_is_missing(repeated: bool, v: &ProtobufValue) -> (r: bool)
    requires
        repeated ==> value_view(*v) is Repeated,
    ensures
        repeated ==> r == (list_of(value_view(*v)).len() == 0),
        !repeated ==> r == (value_view(*v) is Absent),
{
    match v {
        ProtobufValue::Absent => true,
        ProtobufValue::Repeated(l) => {
            proof {
                lemma_repeated_view(*l);
            }
            repeated && l.len() == 0
        },
        _ => false,
    }
}

/// Decodes the fields of a message against its declared fields.  Fields
/// are matched by number; a field whose wire type does not fit its
/// declaration, a string field that is not UTF-8, or an embedded message
/// that cannot be decoded fails the whole message.
pub fn decode_fields(fields: &Vec<FieldSpec>, messages: Vec<ProtobufMessage>) -> (r: Result<
    (Vec<ProtobufField>, FromProtobufMessagesWarnings),
    EventData,
>)
    ensures
        match decode_spec(fields@, fields_view(messages@)) {
            Ok((vals, w)) => r matches Ok((v, ww)) && fields_model(v@) == vals && warnings_view(ww) == w,
            Err(d) => r matches Err(e) && e.details@ == d,
        },
    decreases fields@,
{
    let ghost ms = fields_view(messages@);
    let mut slots: Vec<ProtobufValue> = Vec::new();
    let mut i: usize = 0;
    while i < fields.len()
        invariant
            i <= fields@.len(),
            slots@.len() == i,
            values_model(slots@) =~= initial_state(fields@).slots.take(i as int),
            forall|j: int| 0 <= j < i ==> fields@[j].repeated ==> value_view(#[trigger] slots@[j]) is Repeated,
        decreases fields@.len() - i,
    {
        let v = if fields[i].repeated {
            let e: Vec<ProtobufValue> = Vec::new();
            proof {
                lemma_repeated_view(e);
                assert(values_model(e@) =~= Seq::<Value>::empty());
            }
            ProtobufValue::Repeated(e)
        } else {
            ProtobufValue::Absent
        };
        slots.push(v);
        i = i + 1;
    }
    let mut unknown: Vec<ProtobufMessage> = Vec::new();
    let mut subs: Vec<(&'static str, FromProtobufMessagesWarnings)> = Vec::new();
    let total = messages.len();
    let mut pending = messages;
    let mut n: usize = 0;
    proof {
        assert(values_model(slots@) =~= initial_state(fields@).slots);
        assert(fields_view(unknown@) =~= Seq::<WireField>::empty());
        assert(subs@.map_values(|p: (&'static str, FromProtobufMessagesWarnings)| (p.0@, warnings_view(p.1)))
            =~= Seq::<(Seq<char>, Warnings)>::empty());
        assert(fields_view(pending@) =~= ms.skip(0));
    }
    while pending.len() > 0
        invariant
            n <= ms.len(),
            ms == fields_view(messages@),
            ms.len() == total,
            fields_view(pending@) =~= ms.skip(n as int),
            decode_prefix(fields@, ms, n as nat) == Ok::<DecodeState, Seq<char>>(state_model(slots@, unknown@, subs@)),
            slots@.len() == fields@.len(),
            forall|j: int| 0 <= j < fields@.len() ==> fields@[j].repeated ==> value_view(#[trigger] slots@[j]) is Repeated,
        decreases pending@.len(),
    {
        let ghost st = state_model(slots@, unknown@, subs@);
        let ghost before = pending@;
        proof {
            if decode_prefix(fields@, ms, (n + 1) as nat) is Err {
                lemma_prefix_err_sticks(fields@, ms, (n + 1) as nat, ms.len());
            }
        }
        let msg = pending.remove(0);
        proof {
            assert(fields_view(before).len() == before.len());
            assert(n < ms.len());
            assert(ms.skip(n as int)[0] == ms[n as int]);
            assert(fields_view(before)[0] == msg@);
            assert(ms[n as int] == msg@);
            assert(pending@ =~= before.subrange(1, before.len() as int));
            assert(fields_view(pending@) =~= fields_view(before).subrange(1, before.len() as int));
            assert(fields_view(pending@) =~= ms.skip(n as int + 1));
        }
        match find_field(fields, msg.field_number) {
            None => {
                unknown.push(msg);
                proof {
                    assert(fields_view(unknown@) =~= st.unknown.push(msg@));
                    assert(state_model(slots@, unknown@, subs@) =~~= DecodeState {
                        slots: st.slots,
                        unknown: st.unknown.push(msg@),
                        subs: st.subs,
                    });
                }
            },
            Some(k) => {
                let repeated = fields[k].repeated;
                let kind = fields[k].kind;
                let ProtobufMessage { message, field_number: _ } = msg;
                match message {
                    WireMessage::VarInt(x) => {
                        if kind == FieldKind::VarInt {
                            put_value(&mut slots, k, repeated, ProtobufValue::VarInt(x));
                        } else {
                            proof {
                                assert(ms[n as int].value == WireValue::VarInt(x));
                                assert(field_index(fields@, ms[n as int].field_number, 0) == Some(k as nat));
                                assert(fields@[k as int].kind != FieldKind::VarInt);
                                assert(decode_prefix(fields@, ms, n as nat) is Ok);
                                assert(decode_prefix(fields@, ms, (n + 1) as nat) == Err::<DecodeState, Seq<char>>("bad protobuf type"@));
                            }
                            return Err(EventData::new("bad protobuf type", "src/message_schema.rs"));
                        }
                    },
                    WireMessage::Fixed32(x) => {
                        if kind == FieldKind::Fixed32 {
                            put_value(&mut slots, k, repeated, ProtobufValue::Fixed32(x));
                        } else if kind == FieldKind::Float32 {
                            put_value(&mut slots, k, repeated, ProtobufValue::Float32(x));
                        } else {
                            return Err(EventData::new("bad protobuf type", "src/message_schema.rs"));
                        }
                    },
                    WireMessage::Length(bytes) => {
                        if kind == FieldKind::Length {
                            put_value(&mut slots, k, repeated, ProtobufValue::Length(bytes));
                        } else if kind == FieldKind::String {
                            match utf8_to_string(bytes) {
                                Some(text) => put_value(&mut slots, k, repeated, ProtobufValue::String(text)),
                                None => {
                                    return Err(EventData::new("string field is not valid utf-8", "src/message_schema.rs"));
                                },
                            }
                        } else if kind == FieldKind::Proto {
                            let sub_msgs = match ProtobufMessage::many_from_vec(&bytes) {
                                Ok(v) => v,
                                Err(e) => return Err(read_failure_event(e)),
                            };
                            proof {
                                assert(decreases_to!(fields@ => fields@[k as int]));
                                assert(decreases_to!(fields@[k as int] => fields@[k as int].sub));
                                assert(decreases_to!(fields@[k as int].sub => fields@[k as int].sub@));
                            }
                            let (vals, w) = match decode_fields(&fields[k].sub, sub_msgs) {
                                Ok(x) => x,
                                Err(ev) => return Err(ev),
                            };
                            proof {
                                lemma_proto_view(vals);
                            }
                            put_value(&mut slots, k, repeated, ProtobufValue::Proto(vals));
                            let ghost subs_before = subs@;
                            subs.push((fields[k].name, w));
                            proof {
                                assert(state_model(slots@, unknown@, subs@).subs =~= st.subs.push((fields@[k as int].name@, warnings_view(w))));
                            }
                        } else {
                            return Err(EventData::new("bad protobuf type", "src/message_schema.rs"));
                        }
                    },
                }
            },
        }
        n = n + 1;
    }
    proof {
        assert(n == ms.len());
    }
    let ghost fin = finalize(fields@, state_model(slots@, unknown@, subs@));
    let ghost slot_models = values_model(slots@);
    let mut out: Vec<ProtobufField> = Vec::new();
    let mut missing: Vec<(u8, &'static str)> = Vec::new();
    let mut j: usize = 0;
    let ghost all_slots = slots@;
    while j < fields.len()
        invariant
            j <= fields@.len(),
            all_slots.len() == fields@.len(),
            slots@ =~= all_slots.skip(j as int),
            slot_models == values_model(all_slots),
            forall|q: int| 0 <= q < fields@.len() ==> fields@[q].repeated ==> value_view(#[trigger] all_slots[q]) is Repeated,
            fields_model(out@) =~= fin.0.take(j as int),
            missing@.map_values(|p: (u8, &'static str)| (p.0, p.1@)) =~= missing_fields(fields@, slot_models, j as nat),
            fin == finalize(fields@, DecodeState { slots: slot_models, unknown: fin.1.unknown, subs: fin.1.sub }),
        decreases fields@.len() - j,
    {
        let v = slots.remove(0);
        proof {
            assert(v == all_slots[j as int]);
            assert(slot_models[j as int] == value_view(v));
            assert(fields@[j as int].repeated ==> value_view(v) is Repeated);
        }
        let repeated = fields[j].repeated;
        let is_missing_now = slot_is_missing(repeated, &v);
        if !fields[j].optional && is_missing_now {
            missing.push((fields[j].id, fields[j].name));
        }
        let outv = if repeated && is_missing_now {
            ProtobufValue::Absent
        } else {
            v
        };
        let ghost out_before = out@;
        out.push((fields[j].name, outv));
        proof {
            assert(value_view(outv) == out_value(fields@[j as int], slot_models[j as int]));
            assert(fin.0[j as int] == (fields@[j as int].name@, out_value(fields@[j as int], slot_models[j as int])));
            assert(fields_model(out@) =~= fields_model(out_before).push(fin.0[j as int]));
            assert(fin.0.take(j as int + 1) =~= fin.0.take(j as int).push(fin.0[j as int]));
            assert(slots@ =~= all_slots.skip(j as int + 1));
        }
        j = j + 1;
    }
    let warnings = FromProtobufMessagesWarnings { unknown_fields: unknown, missing_fields: missing, sub_warnings: subs };
    proof {
        let w = warnings_view(warnings);
        assert(w.sub =~= fin.1.sub);
        assert(w.missing =~= fin.1.missing);
        assert(fields_model(out@) =~= fin.0);
    }
    Ok((out, warnings))
}

/// A decoded network or user message: its id, its name and its fields in
/// order of declaration.
#[derive(Debug)]
pub struct DecodedMessage {
    pub id: u64,
    pub name: &'static str,
    pub fields: Vec<ProtobufField>,
}

/// The model of a decoded message.
pub struct MessageModel {
    pub id: u64,
    pub name: Seq<char>,
    pub fields: Seq<(Seq<char>, Value)>,
}

impl View for DecodedMessage {
    type V = MessageModel;

    open spec fn view(&self) -> MessageModel {
        MessageModel { id: self.id, name: self.name@, fields: fields_model(self.fields@) }
    }
}

impl DecodedMessage {
    /// The id of the message.
    pub fn as_u64(&self) -> (r: u64)
        ensures
            r == self.id,
    {
        self.id
    }

    /// The name of the message.
    pub fn to_str(&self) -> (r: &'static str)
        ensures
            r@ == self.name@,
    {
        self.name
    }
}

/// The declared messages of one family (network or user messages).
pub struct MessageTable {
    pub messages: Vec<MessageSpec>,
}

impl MessageTable {
    /// The number of declared messages.
    pub fn type_count(&self) -> (r: usize)
        ensures
            r == self.messages@.len(),
    {
        self.messages.len()
    }
}

/// The index of the first declared message (from index `i` on) with the given id.
pub open spec fn message_index(specs: Seq<MessageSpec>, id: u64, i: nat) -> Option<nat>
    decreases specs.len() - i,
{
    if i >= specs.len() {
        None
    } else if specs[i as int].id == id {
        Some(i)
    } else {
        message_index(specs, id, i + 1)
    }
}

/// The model of why a message could not be decoded.
pub enum MessageFailure {
    /// Invalid or corrupt data, with these details.
    Invalid(Seq<char>),
    /// A field could not be read; the details name this failure.
    BadField(ReadFailure),
    /// The id is not declared.
    Unknown(u64),
}

/// The prefix of the details of a `BadField` failure.
pub open spec fn bad_field_prefix() -> Seq<char> {
    "bad data parse, proto_message: "@
}

/// Whether an error is the one a failure model describes.
pub open spec fn failure_matches(err: ParseMessageErr, f: MessageFailure) -> bool {
    match f {
        MessageFailure::Invalid(d) => err matches ParseMessageErr::InvalidOrCorrupt(ev) && ev.details@ == d,
        MessageFailure::BadField(_) => err matches ParseMessageErr::InvalidOrCorrupt(ev)
            && bad_field_prefix().is_prefix_of(ev.details@),
        MessageFailure::Unknown(n) => err == ParseMessageErr::UnknownCommand(n),
    }
}

/// The model of decoding the fields `msgs` as a message with the given id.
pub open spec fn decode_message_spec(specs: Seq<MessageSpec>, id: u64, msgs: Seq<WireField>) -> Result<
    (MessageModel, Warnings),
    MessageFailure,
> {
    match message_index(specs, id, 0) {
        None => Err(MessageFailure::Unknown(id)),
        Some(k) => if k < specs.len() {
            match decode_spec(specs[k as int].fields@, msgs) {
                Err(d) => Err(MessageFailure::Invalid(d)),
                Ok((vals, w)) => Ok((MessageModel { id, name: specs[k as int].name@, fields: vals }, w)),
            }
        } else {
            Err(MessageFailure::Unknown(id))
        },
    }
}

/// Whether a decoding result is the one its model describes.
pub open spec fn result_matches(
    r: Result<(DecodedMessage, FromProtobufMessagesWarnings), ParseMessageErr>,
    m: Result<(MessageModel, Warnings), MessageFailure>,
) -> bool {
    match m {
        Ok((msg, w)) => r matches Ok((x, xw)) && x@ == msg && warnings_view(xw) == w,
        Err(f) => r matches Err(e) && failure_matches(e, f),
    }
}

/// The Debug rendering of a read failure, used in error details.  Nothing
/// is stated of the text.
#[verifier::external_body]
fn debug_text(e: &FromReadableErr) -> String {
    format!("{:?}", e)
}

/// The event for a field that could not be read.
fn bad_field_event(e: &FromReadableErr) -> (ev: EventData)
    ensures
        bad_field_prefix().is_prefix_of(ev.details@),
{
    let text = debug_text(e);
    let ev = EventData::with_suffix("bad data parse, proto_message: ", text, "src/message_schema.rs");
    proof {
        assert(ev.details@.subrange(0, bad_field_prefix().len() as int) =~= bad_field_prefix());
    }
    ev
}

/// Reading fields while fewer than `need` bytes have been consumed: the
/// fields and what is left, or the first failure and what is left.
pub open spec fn spec_fields_until(s: Seq<u8>, need: int) -> (Result<Seq<WireField>, ReadFailure>, Seq<u8>)
    decreases s.len(),
{
    if need <= 0 {
        (Ok(Seq::empty()), s)
    } else {
        let (r, rest) = spec_message(s);
        match r {
            Err(e) => (Err(e), rest),
            Ok(m) => if rest.len() < s.len() {
                let (r2, rest2) = spec_fields_until(rest, need - (s.len() - rest.len()));
                match r2 {
                    Ok(ms) => (Ok(seq![m] + ms), rest2),
                    Err(e) => (Err(e), rest2),
                }
            } else {
                (Err(e_never()), rest)
            },
        }
    }
}

/// Fields already read, followed by the result of reading more.
pub open spec fn prepend_fields(
    done: Seq<WireField>,
    res: (Result<Seq<WireField>, ReadFailure>, Seq<u8>),
) -> (Result<Seq<WireField>, ReadFailure>, Seq<u8>) {
    match res.0 {
        Ok(ms) => (Ok(done + ms), res.1),
        Err(e) => (Err(e), res.1),
    }
}

/// One step of reading fields until enough bytes are consumed.
proof fn lemma_fields_until_step(done: Seq<WireField>, s: Seq<u8>, need: int, m: WireField)
    requires
        need > 0,
        s.len() > 0,
        spec_message(s).0 == Ok::<WireField, ReadFailure>(m),
    ensures
        prepend_fields(done, spec_fields_until(s, need)) == prepend_fields(
            done.push(m),
            spec_fields_until(spec_message(s).1, need - (s.len() - spec_message(s).1.len())),
        ),
{
    lemma_message_consumes(s);
    let rest = spec_message(s).1;
    let r2 = spec_fields_until(rest, need - (s.len() - rest.len()));
    match r2.0 {
        Ok(ms) => {
            assert(done + (seq![m] + ms) =~= done.push(m) + ms);
        },
        Err(_) => {},
    }
}

/// Decoding one framed message from the start of `s`: a variable-length
/// id, a variable-length size, then fields filling exactly that size.  The
/// result and the bytes left.
pub open spec fn spec_framed_message(specs: Seq<MessageSpec>, s: Seq<u8>) -> (Result<(MessageModel, Warnings), MessageFailure>, Seq<u8>) {
    let (cmd, r1) = spec_varint(s);
    match cmd {
        None => (Err(MessageFailure::Invalid("bad varint read, network_command"@)), r1),
        Some(id) => {
            let (size, r2) = spec_varint(r1);
            match size {
                None => (Err(MessageFailure::Invalid("bad varint read, command_size"@)), r2),
                Some(n) => {
                    let (fr, r3) = spec_fields_until(r2, n as int);
                    match fr {
                        Err(e) => (Err(MessageFailure::BadField(e)), r3),
                        Ok(msgs) => if r2.len() - r3.len() != n {
                            (Err(MessageFailure::Invalid("bad read, data read did not equal expected size"@)), r3)
                        } else {
                            (decode_message_spec(specs, id, msgs), r3)
                        },
                    }
                },
            }
        },
    }
}

/// Reading fields never grows what is left.
pub proof fn lemma_fields_until_shrinks(s: Seq<u8>, need: int)
    ensures
        spec_fields_until(s, need).1.len() <= s.len(),
    decreases s.len(),
{
    if need > 0 {
        if s.len() > 0 {
            lemma_message_consumes(s);
            let (r, rest) = spec_message(s);
            if r is Ok {
                lemma_fields_until_shrinks(rest, need - (s.len() - rest.len()));
            }
        } else {
            assert(spec_varint(s).1.len() == 0);
        }
    }
}

/// Reading a framed message from a non-empty input consumes something.
pub proof fn lemma_framed_message_consumes(specs: Seq<MessageSpec>, s: Seq<u8>)
    requires
        s.len() > 0,
    ensures
        spec_framed_message(specs, s).1.len() < s.len(),
{
    lemma_varint_consumes(s);
    let r1 = spec_varint(s).1;
    if r1.len() > 0 {
        lemma_varint_consumes(r1);
    }
    let (size, r2) = spec_varint(r1);
    if let Some(n) = size {
        lemma_fields_until_shrinks(r2, n as int);
    }
}

/// Decoding the rest of a buffer as the fields of a message with a known id.
pub open spec fn spec_message_with_id(specs: Seq<MessageSpec>, id: u64, s: Seq<u8>) -> Result<(MessageModel, Warnings), MessageFailure> {
    match spec_messages(s) {
        Err(e) => Err(MessageFailure::BadField(e)),
        Ok(msgs) => decode_message_spec(specs, id, msgs),
    }
}

impl MessageTable {
    /// The first declared message with the given id.
    fn find(&self, id: u64) -> (r: Option<usize>)
        ensures
            r matches Some(k) ==> message_index(self.messages@, id, 0) == Some(k as nat) && k < self.messages@.len(),
            r is None ==> message_index(self.messages@, id, 0) is None,
    {
        let mut i: usize = 0;
        while i < self.messages.len()
            invariant
                i <= self.messages@.len(),
                message_index(self.messages@, id, 0) == message_index(self.messages@, id, i as nat),
            decreases self.messages@.len() - i,
        {
            if self.messages[i].id == id {
                return Some(i);
            }
            i = i + 1;
        }
        None
    }

    /// Decodes fields as the message with the given id.
    pub fn decode(&self, id: u64, msgs: Vec<ProtobufMessage>) -> (r: Result<
        (DecodedMessage, FromProtobufMessagesWarnings),
        ParseMessageErr,
    >)
        ensures
            result_matches(r, decode_message_spec(self.messages@, id, fields_view(msgs@))),
    {
        match self.find(id) {
            None => Err(ParseMessageErr::UnknownCommand(id)),
            Some(k) => {
                let spec = &self.messages[k];
                match decode_fields(&spec.fields, msgs) {
                    Ok((fields, warns)) => Ok((DecodedMessage { id, name: spec.name, fields }, warns)),
                    Err(e) => Err(ParseMessageErr::InvalidOrCorrupt(e)),
                }
            },
        }
    }

    /// Reads one framed message (id, size, fields) and decodes it.
    pub fn parse_from_reader(&self, reader: &mut ByteReader) -> (r: Result<
        (DecodedMessage, FromProtobufMessagesWarnings),
        ParseMessageErr,
    >)
        requires
            old(reader).wf(),
        ensures
            final(reader).wf(),
            final(reader)@ == spec_framed_message(self.messages@, old(reader)@).1,
            result_matches(r, spec_framed_message(self.messages@, old(reader)@).0),
    {
        let network_command = match parse_varint(reader) {
            ParseVarIntExit::Value(n) => n,
            _ => return Err(ParseMessageErr::InvalidOrCorrupt(EventData::new("bad varint read, network_command", "src/message_schema.rs"))),
        };
        let command_size = match parse_varint(reader) {
            ParseVarIntExit::Value(n) => n,
            _ => return Err(ParseMessageErr::InvalidOrCorrupt(EventData::new("bad varint read, command_size", "src/message_schema.rs"))),
        };
        let ghost r2 = reader@;
        let ghost target = spec_fields_until(r2, command_size as int);
        let start_bytes = reader.buf_len();
        let mut proto_messages: Vec<ProtobufMessage> = Vec::new();
        proof {
            assert(fields_view(proto_messages@) =~= Seq::<WireField>::empty());
            match target.0 {
                Ok(ms) => {
                    assert(Seq::<WireField>::empty() + ms =~= ms);
                },
                Err(_) => {},
            }
        }
        while ((start_bytes - reader.buf_len()) as u64) < command_size
            invariant
                reader.wf(),
                reader@.len() <= r2.len(),
                start_bytes == r2.len(),
                target == spec_fields_until(r2, command_size as int),
                spec_varint(old(reader)@).0 == Some(network_command),
                spec_varint(spec_varint(old(reader)@).1).0 == Some(command_size),
                r2 == spec_varint(spec_varint(old(reader)@).1).1,
                target == prepend_fields(
                    fields_view(proto_messages@),
                    spec_fields_until(reader@, command_size - (r2.len() - reader@.len())),
                ),
            decreases reader@.len(),
        {
            let ghost before = reader@;
            let ghost need = command_size - (r2.len() - reader@.len());
            let message = match ProtobufMessage::from_readable(reader) {
                Ok(pbm) => pbm,
                Err(e) => {
                    return Err(ParseMessageErr::InvalidOrCorrupt(bad_field_event(&e)));
                },
            };
            proof {
                if before.len() == 0 {
                    assert(spec_varint(before).0 is None);
                    assert(false);
                }
                lemma_message_consumes(before);
                lemma_fields_until_step(fields_view(proto_messages@), before, need, message@);
            }
            let ghost pm = proto_messages@;
            proto_messages.push(message);
            proof {
                assert(fields_view(proto_messages@) =~= fields_view(pm).push(message@));
            }
        }
        proof {
            assert(fields_view(proto_messages@) + Seq::<WireField>::empty() =~= fields_view(proto_messages@));
        }
        if (start_bytes - reader.buf_len()) as u64 != command_size {
            return Err(ParseMessageErr::InvalidOrCorrupt(EventData::new("bad read, data read did not equal expected size", "src/message_schema.rs")));
        }
        self.decode(network_command, proto_messages)
    }

    /// Reads fields until the reader is empty and decodes them as the
    /// message with the given id.
    pub fn parse_from_id_and_reader(&self, id: u64, reader: &mut ByteReader) -> (r: Result<
        (DecodedMessage, FromProtobufMessagesWarnings),
        ParseMessageErr,
    >)
        requires
            old(reader).wf(),
        ensures
            final(reader).wf(),
            result_matches(r, spec_message_with_id(self.messages@, id, old(reader)@)),
            final(reader)@ == messages_rest(old(reader)@),
            spec_messages(old(reader)@) is Ok ==> final(reader)@ == Seq::<u8>::empty(),
            r is Ok ==> final(reader)@ == Seq::<u8>::empty(),
    {
        let ghost s = reader@;
        proof {
            if spec_messages(s) is Ok {
                lemma_messages_rest_empty(s);
            }
        }
        let mut proto_messages: Vec<ProtobufMessage> = Vec::new();
        while reader.buf_len() > 0
            invariant
                reader.wf(),
                s == old(reader)@,
                messages_rest(s) == messages_rest(reader@),
                match spec_messages(reader@) {
                    Ok(ms) => spec_messages(s) == Ok::<Seq<WireField>, ReadFailure>(fields_view(proto_messages@) + ms),
                    Err(e) => spec_messages(s) == Err::<Seq<WireField>, ReadFailure>(e),
                },
            decreases reader@.len(),
        {
            let ghost before = reader@;
            proof {
                lemma_message_consumes(before);
            }
            let message = match ProtobufMessage::from_readable(reader) {
                Ok(pbm) => pbm,
                Err(e) => return Err(ParseMessageErr::InvalidOrCorrupt(bad_field_event(&e))),
            };
            let ghost pm = proto_messages@;
            proto_messages.push(message);
            proof {
                assert(fields_view(proto_messages@) =~= fields_view(pm).push(message@));
                match spec_messages(reader@) {
                    Ok(ms) => {
                        assert(fields_view(pm) + (seq![message@] + ms) =~= fields_view(proto_messages@) + ms);
                    },
                    Err(_) => {},
                }
            }
        }
        proof {
            assert(fields_view(proto_messages@) + Seq::<WireField>::empty() =~= fields_view(proto_messages@));
        }
        self.decode(id, proto_messages)
    }
}

/// The largest field number a declaration may use (five bits).
pub const MAX_FIELD_ID: u8 = 31;

/// The declaration of a field that is not an embedded message.
pub fn field(name: &'static str, id: u8, kind: FieldKind, optional: bool, repeated: bool) -> (f: FieldSpec)
    requires
        id <= MAX_FIELD_ID,
    ensures
        f.name == name,
        f.id == id,
        f.kind == kind,
        f.optional == optional,
        f.repeated == repeated,
        f.sub@.len() == 0,
{
    FieldSpec { name, id, kind, optional, repeated, sub: Vec::new() }
}

/// The declaration of an embedded message field.
pub fn proto_field(name: &'static str, id: u8, optional: bool, repeated: bool, sub: Vec<FieldSpec>) -> (f: FieldSpec)
    requires
        id <= MAX_FIELD_ID,
    ensures
        f.name == name,
        f.id == id,
        f.kind == FieldKind::Proto,
        f.optional == optional,
        f.repeated == repeated,
        f.sub == sub,
{
    FieldSpec { name, id, kind: FieldKind::Proto, optional, repeated, sub }
}

/// The declaration of a message.
pub fn message(name: &'static str, id: u64, fields: Vec<FieldSpec>) -> (m: MessageSpec)
    ensures
        m.name == name,
        m.id == id,
        m.fields == fields,
{
    MessageSpec { name, id, fields }
}

/// Whether two strings are equal.
pub fn str_eq(a: &str, b: &str) -> (r: bool)
    ensures
        r == (a@ == b@),
{
    let x = a.as_bytes();
    let y = b.as_bytes();
    proof {
        vstd::utf8::encode_utf8_decode_utf8(a@);
        vstd::utf8::encode_utf8_decode_utf8(b@);
    }
    if x.len() != y.len() {
        return false;
    }
    let mut i: usize = 0;
    while i < x.len()
        invariant
            x@.len() == y@.len(),
            x@ == vstd::utf8::encode_utf8(a@),
            y@ == vstd::utf8::encode_utf8(b@),
            i <= x@.len(),
            forall|j: int| 0 <= j < i ==> x@[j] == y@[j],
        decreases x@.len() - i,
    {
        if x[i] != y[i] {
            return false;
        }
        i = i + 1;
    }
    proof {
        assert(x@ =~= y@);
    }
    true
}

/// The position of the first field (from index `i` on) with the given name.
pub open spec fn named_index(fields: Seq<(Seq<char>, Value)>, name: Seq<char>, i: nat) -> Option<nat>
    decreases fields.len() - i,
{
    if i >= fields.len() {
        None
    } else if fields[i as int].0 == name {
        Some(i)
    } else {
        named_index(fields, name, i + 1)
    }
}

/// The value of the first field with the given name (`Absent` when there is none).
pub open spec fn named_value(fields: Seq<(Seq<char>, Value)>, name: Seq<char>) -> Value {
    match named_index(fields, name, 0) {
        Some(k) => if k < fields.len() { fields[k as int].1 } else { Value::Absent },
        None => Value::Absent,
    }
}

/// The integer held by a value, when it holds one.
pub open spec fn varint_of(v: Value) -> Option<u64> {
    match v {
        Value::VarInt(x) => Some(x),
        _ => None,
    }
}

/// The position of the first field with the given name.
pub fn find_named(fields: &Vec<ProtobufField>, name: &str) -> (r: Option<usize>)
    ensures
        r matches Some(k) ==> named_index(fields_model(fields@), name@, 0) == Some(k as nat) && k < fields@.len(),
        r is None ==> named_index(fields_model(fields@), name@, 0) is None,
{
    let ghost m = fields_model(fields@);
    let mut i: usize = 0;
    while i < fields.len()
        invariant
            i <= fields@.len(),
            m == fields_model(fields@),
            named_index(m, name@, 0) == named_index(m, name@, i as nat),
        decreases fields@.len() - i,
    {
        if str_eq(fields[i].0, name) {
            return Some(i);
        }
        i = i + 1;
    }
    None
}

/// The integer of the first field with the given name, when it holds one.
pub fn named_varint(fields: &Vec<ProtobufField>, name: &str) -> (r: Option<u64>)
    ensures
        r == varint_of(named_value(fields_model(fields@), name@)),
{
    match find_named(fields, name) {
        Some(k) => match &fields[k].1 {
            ProtobufValue::VarInt(x) => Some(*x),
            _ => None,
        },
        None => None,
    }
}

/// The text held by a value, when it holds text.
pub open spec fn str_of(v: Value) -> Option<Seq<char>> {
    match v {
        Value::Str(x) => Some(x),
        _ => None,
    }
}

/// The float bits held by a value, when it holds a float.
pub open spec fn float_of(v: Value) -> Option<u32> {
    match v {
        Value::Float32(x) => Some(x),
        _ => None,
    }
}

/// The bytes held by a value, when it holds bytes.
pub open spec fn bytes_of(v: Value) -> Option<Seq<u8>> {
    match v {
        Value::Length(x) => Some(x),
        _ => None,
    }
}

/// The fields of an embedded message (none for another value).
pub open spec fn proto_fields_of(v: Value) -> Seq<(Seq<char>, Value)> {
    match v {
        Value::Proto(fs) => fs,
        _ => Seq::empty(),
    }
}

/// The text of the first field with the given name, when it holds text.
pub fn named_string<'a>(fields: &'a Vec<ProtobufField>, name: &str) -> (r: Option<&'a String>)
    ensures
        match str_of(named_value(fields_model(fields@), name@)) {
            Some(x) => r matches Some(t) && t@ == x,
            None => r is None,
        },
{
    match find_named(fields, name) {
        Some(k) => match &fields[k].1 {
            ProtobufValue::String(x) => Some(x),
            _ => None,
        },
        None => None,
    }
}

/// The float bits of the first field with the given name, when it holds a float.
pub fn named_float(fields: &Vec<ProtobufField>, name: &str) -> (r: Option<u32>)
    ensures
        r == float_of(named_value(fields_model(fields@), name@)),
{
    match find_named(fields, name) {
        Some(k) => match &fields[k].1 {
            ProtobufValue::Float32(x) => Some(*x),
            _ => None,
        },
        None => None,
    }
}

/// The bytes of the first field with the given name, when it holds bytes.
pub fn named_bytes<'a>(fields: &'a Vec<ProtobufField>, name: &str) -> (r: Option<&'a Vec<u8>>)
    ensures
        match bytes_of(named_value(fields_model(fields@), name@)) {
            Some(x) => r matches Some(t) && t@ == x,
            None => r is None,
        },
{
    match find_named(fields, name) {
        Some(k) => match &fields[k].1 {
            ProtobufValue::Length(x) => Some(x),
            _ => None,
        },
        None => None,
    }
}

/// The values of the first field with the given name, when it is repeated
/// (`None` stands for no value).
pub fn named_list<'a>(fields: &'a Vec<ProtobufField>, name: &str) -> (r: Option<&'a Vec<ProtobufValue>>)
    ensures
        match r {
            Some(l) => values_model(l@) == list_of(named_value(fields_model(fields@), name@)),
            None => list_of(named_value(fields_model(fields@), name@)) == Seq::<Value>::empty(),
        },
{
    match find_named(fields, name) {
        Some(k) => match &fields[k].1 {
            ProtobufValue::Repeated(vs) => {
                proof {
                    lemma_repeated_view(*vs);
                }
                Some(vs)
            },
            _ => None,
        },
        None => None,
    }
}

/// The fields of an embedded message value.
pub fn value_fields(v: &ProtobufValue) -> (r: Option<&Vec<ProtobufField>>)
    ensures
        match r {
            Some(fs) => proto_fields_of(value_view(*v)) == fields_model(fs@),
            None => proto_fields_of(value_view(*v)) == Seq::<(Seq<char>, Value)>::empty(),
        },
{
    match v {
        ProtobufValue::Proto(fs) => {
            proof {
                lemma_proto_view(*fs);
            }
            Some(fs)
        },
        _ => None,
    }
}

/// No field has a name in an empty list.
pub proof fn lemma_named_value_empty(name: Seq<char>)
    ensures
        named_value(Seq::<(Seq<char>, Value)>::empty(), name) == Value::Absent,
{
}


/// Whether a decoded value has the form that a field of kind `kind` gives:
/// an integer for a varint, bytes for raw bytes, text for a string, an
/// unsigned 32-bit word for a fixed32, float bits for a float and fields for
/// an embedded message.
pub open spec fn value_fits(kind: FieldKind, v: Value) -> bool {
    match kind {
        FieldKind::VarInt => v is VarInt,
        FieldKind::Length => v is Length,
        FieldKind::Proto => v is Proto,
        FieldKind::Fixed32 => v is Fixed32,
        FieldKind::String => v is Str,
        FieldKind::Float32 => v is Float32,
    }
}

/// Whether what a declared field holds has its form: a list of values of its
/// kind for a repeated field, else nothing or one value of its kind.
pub open spec fn slot_fits(f: FieldSpec, v: Value) -> bool {
    if f.repeated {
        v is Repeated && forall|i: int| 0 <= i < list_of(v).len() ==> value_fits(f.kind, #[trigger] list_of(v)[i])
    } else {
        v is Absent || value_fits(f.kind, v)
    }
}

/// Every slot of a decoding state has the form of its declared field.
proof fn lemma_prefix_fits(fields: Seq<FieldSpec>, msgs: Seq<WireField>, n: nat)
    ensures
        decode_prefix(fields, msgs, n) matches Ok(st) ==> st.slots.len() == fields.len() && forall|k: int|
            0 <= k < fields.len() ==> slot_fits(fields[k], #[trigger] st.slots[k]),
    decreases n,
{
    if n == 0 || n > msgs.len() {
    } else {
        lemma_prefix_fits(fields, msgs, (n - 1) as nat);
        if let Ok(st) = decode_prefix(fields, msgs, (n - 1) as nat) {
            let m = msgs[n - 1];
            if let Some(k) = field_index(fields, m.field_number, 0) {
                if k < fields.len() {
                    let f = fields[k as int];
                    if let Ok(st2) = decode_prefix(fields, msgs, n) {
                        assert(st2.slots.len() == fields.len());
                        assert forall|j: int| 0 <= j < fields.len() implies slot_fits(fields[j], #[trigger] st2.slots[j]) by {
                            if j == k as int {
                                assert(slot_fits(fields[j], st.slots[j]));
                                if f.repeated {
                                    let l = list_of(st.slots[j]);
                                    let l2 = list_of(st2.slots[j]);
                                    assert(l2.len() == l.len() + 1);
                                    assert forall|i: int| 0 <= i < l2.len() implies value_fits(f.kind, #[trigger] l2[i]) by {
                                        if i < l.len() {
                                            assert(l2[i] == l[i]);
                                        }
                                    }
                                }
                            } else {
                                assert(st2.slots[j] == st.slots[j]);
                            }
                        }
                    }
                }
            }
        }
    }
}

/// Decoding gives one entry per declared field, in order of declaration and
/// under its name, and each holds a value of the field's declared kind: a
/// fixed32 field yields an unsigned word and only a float field yields float
/// bits, a string field yields text, and so on.  A repeated field holds a
/// list of such values, and any field may be absent.
pub proof fn law_decoded_fields_have_declared_kinds(fields: Seq<FieldSpec>, msgs: Seq<WireField>)
    ensures
        decode_spec(fields, msgs) matches Ok((vals, w)) ==> {
            &&& vals.len() == fields.len()
            &&& forall|k: int| 0 <= k < fields.len() ==> {
                &&& (#[trigger] vals[k]).0 == fields[k].name@
                &&& vals[k].1 is Absent || (if fields[k].repeated {
                    vals[k].1 is Repeated && forall|i: int|
                        0 <= i < list_of(vals[k].1).len() ==> value_fits(fields[k].kind, #[trigger] list_of(vals[k].1)[i])
                } else {
                    value_fits(fields[k].kind, vals[k].1)
                })
            }
        },
{
    lemma_prefix_fits(fields, msgs, msgs.len());
}

/// The value that a wire value gives a field of kind `kind` that is neither
/// repeated nor an embedded message: the same integer for a varint, the same
/// 32 bits as an unsigned word for a fixed32 and as float bits for a float,
/// the same bytes, or their text for a string.
pub open spec fn plain_value(kind: FieldKind, w: WireValue) -> Value {
    match (kind, w) {
        (FieldKind::VarInt, WireValue::VarInt(x)) => Value::VarInt(x),
        (FieldKind::Fixed32, WireValue::Fixed32(x)) => Value::Fixed32(x),
        (FieldKind::Float32, WireValue::Fixed32(x)) => Value::Float32(x),
        (FieldKind::Length, WireValue::Length(b)) => Value::Length(b),
        (FieldKind::String, WireValue::Length(b)) => Value::Str(decode_utf8(b)),
        _ => Value::Absent,
    }
}

/// The index of the last of the first `n` wire fields that is declared as
/// field `k`.
pub open spec fn last_occurrence(fields: Seq<FieldSpec>, msgs: Seq<WireField>, k: nat, n: nat) -> Option<nat>
    decreases n,
{
    if n == 0 {
        None
    } else if field_index(fields, msgs[n - 1].field_number, 0) == Some(k) {
        Some((n - 1) as nat)
    } else {
        last_occurrence(fields, msgs, k, (n - 1) as nat)
    }
}

/// After the first `n` wire fields, a field that is neither repeated nor an
/// embedded message holds the value of its last occurrence, or nothing.
proof fn lemma_prefix_last_wins(fields: Seq<FieldSpec>, msgs: Seq<WireField>, k: nat, n: nat)
    requires
        n <= msgs.len(),
        k < fields.len(),
        !fields[k as int].repeated,
        fields[k as int].kind != FieldKind::Proto,
    ensures
        decode_prefix(fields, msgs, n) matches Ok(st) ==> st.slots[k as int] == match last_occurrence(fields, msgs, k, n) {
            None => Value::Absent,
            Some(j) => plain_value(fields[k as int].kind, msgs[j as int].value),
        },
    decreases n,
{
    if n > 0 {
        lemma_prefix_last_wins(fields, msgs, k, (n - 1) as nat);
        lemma_prefix_fits(fields, msgs, (n - 1) as nat);
    }
}

/// Decoding keeps, for a field that is neither repeated nor an embedded
/// message, the last occurrence of it among the wire fields, converted by its
/// declared kind with the same bits: a fixed32 wire value in a field declared
/// fixed32 is that unsigned word, in a field declared float those float
/// bits; a field that does not occur is absent.
pub proof fn law_decode_keeps_last_value(fields: Seq<FieldSpec>, msgs: Seq<WireField>, k: nat)
    requires
        k < fields.len(),
        !fields[k as int].repeated,
        fields[k as int].kind != FieldKind::Proto,
    ensures
        decode_spec(fields, msgs) matches Ok((vals, w)) ==> vals[k as int] == (
            fields[k as int].name@,
            match last_occurrence(fields, msgs, k, msgs.len()) {
                None => Value::Absent,
                Some(j) => plain_value(fields[k as int].kind, msgs[j as int].value),
            },
        ),
{
    lemma_prefix_last_wins(fields, msgs, k, msgs.len());
}

} // verus!
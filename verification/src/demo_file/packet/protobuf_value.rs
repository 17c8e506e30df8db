use vstd::prelude::*;

verus! {

/// A named field of a decoded message.
pub type ProtobufField = (&'static str, ProtobufValue);

/// A decoded message field.  `Float32` holds the IEEE-754 bits of the value.
#[derive(Debug)]
pub enum ProtobufValue {
    Absent,
    VarInt(u64),
    Length(Vec<u8>),
    String(String),
    Fixed32(u32),
    Float32(u32),
    Proto(Vec<ProtobufField>),
    Repeated(Vec<ProtobufValue>),
}

/// The model of a decoded field.
pub enum Value {
    Absent,
    VarInt(u64),
    Length(Seq<u8>),
    Str(Seq<char>),
    Fixed32(u32),
    Float32(u32),
    Proto(Seq<(Seq<char>, Value)>),
    Repeated(Seq<Value>),
}

/// The model of a decoded field.
pub open spec fn value_view(v: ProtobufValue) -> Value
    decreases v,
{
    match v {
        ProtobufValue::Absent => Value::Absent,
        ProtobufValue::VarInt(x) => Value::VarInt(x),
        ProtobufValue::Length(b) => Value::Length(b@),
        ProtobufValue::String(s) => Value::Str(s@),
        ProtobufValue::Fixed32(x) => Value::Fixed32(x),
        ProtobufValue::Float32(x) => Value::Float32(x),
        ProtobufValue::Proto(fs) => Value::Proto(
            Seq::new(
                fs@.len(),
                |i: int|
                    if 0 <= i < fs@.len() {
                        (fs@[i].0@, value_view(fs@[i].1))
                    } else {
                        (Seq::empty(), Value::Absent)
                    },
            ),
        ),
        ProtobufValue::Repeated(vs) => Value::Repeated(
            Seq::new(
                vs@.len(),
                |i: int|
                    if 0 <= i < vs@.len() {
                        value_view(vs@[i])
                    } else {
                        Value::Absent
                    },
            ),
        ),
    }
}

/// The model of a list of named fields.
pub open spec fn fields_model(fs: Seq<ProtobufField>) -> Seq<(Seq<char>, Value)> {
    Seq::new(fs.len(), |i: int| (fs[i].0@, value_view(fs[i].1)))
}

/// The model of a list of values.
pub open spec fn values_model(vs: Seq<ProtobufValue>) -> Seq<Value> {
    Seq::new(vs.len(), |i: int| value_view(vs[i]))
}

/// The model of a repeated value is the list of the models of its values.
pub proof fn lemma_repeated_view(vs: Vec<ProtobufValue>)
    ensures
        value_view(ProtobufValue::Repeated(vs)) == Value::Repeated(values_model(vs@)),
{
    let v = value_view(ProtobufValue::Repeated(vs));
    assert(v is Repeated);
    let l = v->Repeated_0;
    assert(l =~= values_model(vs@));
}

/// The model of an embedded message is the list of the models of its fields.
pub proof fn lemma_proto_view(fs: Vec<ProtobufField>)
    ensures
        value_view(ProtobufValue::Proto(fs)) == Value::Proto(fields_model(fs@)),
{
    let v = value_view(ProtobufValue::Proto(fs));
    assert(v is Proto);
    let l = v->Proto_0;
    assert(l =~= fields_model(fs@));
}

} // verus!

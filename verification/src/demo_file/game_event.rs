use vstd::prelude::*;
use crate::message_schema::{
    DecodedMessage, named_value, named_varint, named_string, named_float, named_list, value_fields,
    varint_of, str_of, float_of, list_of, proto_fields_of, lemma_named_value_empty,
};
use crate::demo_file::packet::protobuf_value::{ProtobufValue, ProtobufField, Value, value_view, values_model, fields_model};
use crate::demo_file::packet::MessageParseReturn;
use crate::demo_file::frame::{Frame, Command};
use crate::demo_file::{DemoFile, demo_message, GAME_EVENT_LIST_ID};

verus! {

/// The id of the `GameEvent` network message.
pub const GAME_EVENT_ID: u64 = 25;

/// The type of the value of a game event key.
#[derive(Debug, Clone, Copy, PartialEq, Eq, Structural)]
pub enum FullGameEventKeyType {
    String,
    Float,
    Long,
    Short,
    Byte,
    Bool,
}

/// The key type with the given number: 1 to 6 stand for string, float,
/// long, short, byte and bool.
pub open spec fn key_type_of(value: u64) -> Option<FullGameEventKeyType> {
    if value == 1 {
        Some(FullGameEventKeyType::String)
    } else if value == 2 {
        Some(FullGameEventKeyType::Float)
    } else if value == 3 {
        Some(FullGameEventKeyType::Long)
    } else if value == 4 {
        Some(FullGameEventKeyType::Short)
    } else if value == 5 {
        Some(FullGameEventKeyType::Byte)
    } else if value == 6 {
        Some(FullGameEventKeyType::Bool)
    } else {
        None
    }
}

impl TryFrom<u64> for FullGameEventKeyType {
    type Error = &'static str;

    fn try_from(value: u64) -> (r: Result<Self, &'static str>) {
        match value {
            1 => Ok(FullGameEventKeyType::String),
            2 => Ok(FullGameEventKeyType::Float),
            3 => Ok(FullGameEventKeyType::Long),
            4 => Ok(FullGameEventKeyType::Short),
            5 => Ok(FullGameEventKeyType::Byte),
            6 => Ok(FullGameEventKeyType::Bool),
            _ => Err("unknown key type"),
        }
    }
}

impl vstd::std_specs::convert::TryFromSpecImpl<u64> for FullGameEventKeyType {
    open spec fn obeys_try_from_spec() -> bool {
        true
    }

    open spec fn try_from_spec(value: u64) -> Result<Self, &'static str> {
        match key_type_of(value) {
            Some(t) => Ok(t),
            None => Err("unknown key type"),
        }
    }
}

/// A key of a game event, with its value in the field that its type selects.
/// `val_float` holds the IEEE-754 bits of the value.
#[derive(Debug, Clone)]
pub struct FullGameEventKey {
    pub key_name: String,
    pub key_type: FullGameEventKeyType,
    pub val_string: Option<String>,
    pub val_float: Option<u32>,
    pub val_int: Option<u64>,
    pub val_bool: Option<bool>,
}

/// A game event with its name and its keys, as listed in the game event list.
#[derive(Debug, Clone)]
pub struct FullGameEvent {
    pub event_name: String,
    pub event_id: u64,
    pub event_tick: i32,
    pub event_keys: Vec<FullGameEventKey>,
    pub frame_index: usize,
    pub message_index: usize,
}

/// The model of a game event key.
pub struct GameEventKeyModel {
    pub key_name: Seq<char>,
    pub key_type: FullGameEventKeyType,
    pub val_string: Option<Seq<char>>,
    pub val_float: Option<u32>,
    pub val_int: Option<u64>,
    pub val_bool: Option<bool>,
}

/// The model of a game event.
pub struct GameEventModel {
    pub event_name: Seq<char>,
    pub event_id: u64,
    pub event_tick: i32,
    pub event_keys: Seq<GameEventKeyModel>,
    pub frame_index: int,
    pub message_index: int,
}

/// The model of a game event key.
pub open spec fn key_view(k: FullGameEventKey) -> GameEventKeyModel {
    GameEventKeyModel {
        key_name: k.key_name@,
        key_type: k.key_type,
        val_string: match k.val_string {
            Some(s) => Some(s@),
            None => None,
        },
        val_float: k.val_float,
        val_int: k.val_int,
        val_bool: k.val_bool,
    }
}

/// The models of a list of game event keys.
pub open spec fn keys_view(ks: Seq<FullGameEventKey>) -> Seq<GameEventKeyModel> {
    Seq::new(ks.len(), |i: int| key_view(ks[i]))
}

/// The model of a game event.
pub open spec fn event_view(e: FullGameEvent) -> GameEventModel {
    GameEventModel {
        event_name: e.event_name@,
        event_id: e.event_id,
        event_tick: e.event_tick,
        event_keys: keys_view(e.event_keys@),
        frame_index: e.frame_index as int,
        message_index: e.message_index as int,
    }
}

/// The models of a list of game events.
pub open spec fn events_view(es: Seq<FullGameEvent>) -> Seq<GameEventModel> {
    Seq::new(es.len(), |i: int| event_view(es[i]))
}

/// A key of an event, from the key of its listing (type and name) and the
/// value of the event (its type and value); `None` where the two types are
/// missing or differ, the type is unknown, the name is missing, or a bool
/// has no value.
pub open spec fn event_key_spec(listing_key: Value, ev: Value) -> Option<GameEventKeyModel> {
    let lk = proto_fields_of(listing_key);
    let ek = proto_fields_of(ev);
    match (varint_of(named_value(lk, "key_type"@)), varint_of(named_value(ek, "val_type"@))) {
        (Some(a), Some(b)) => if a != b {
            None
        } else {
            match (key_type_of(a), str_of(named_value(lk, "key_name"@))) {
                (Some(t), Some(name)) => {
                    let none = GameEventKeyModel {
                        key_name: name,
                        key_type: t,
                        val_string: None,
                        val_float: None,
                        val_int: None,
                        val_bool: None,
                    };
                    match t {
                        FullGameEventKeyType::String => Some(
                            GameEventKeyModel { val_string: str_of(named_value(ek, "val_string"@)), ..none },
                        ),
                        FullGameEventKeyType::Float => Some(
                            GameEventKeyModel { val_float: float_of(named_value(ek, "val_float"@)), ..none },
                        ),
                        FullGameEventKeyType::Long => Some(
                            GameEventKeyModel { val_int: varint_of(named_value(ek, "val_long"@)), ..none },
                        ),
                        FullGameEventKeyType::Byte => Some(
                            GameEventKeyModel { val_int: varint_of(named_value(ek, "val_byte"@)), ..none },
                        ),
                        FullGameEventKeyType::Short => Some(
                            GameEventKeyModel { val_int: varint_of(named_value(ek, "val_short"@)), ..none },
                        ),
                        FullGameEventKeyType::Bool => match varint_of(named_value(ek, "val_bool"@)) {
                            Some(x) => Some(GameEventKeyModel { val_bool: Some(x > 0), ..none }),
                            None => None,
                        },
                    }
                },
                _ => None,
            }
        },
        _ => None,
    }
}

/// Whether key `k` carries the value held by the event's key `ek` in the
/// field that its type names: `val_string` for a string, `val_float` for a
/// float, `val_long`, `val_short` and `val_byte` for the integer types, and
/// `val_bool` (true when above zero) for a bool; the other values are empty.
pub open spec fn carries_value(ek: Seq<(Seq<char>, Value)>, k: GameEventKeyModel) -> bool {
    match k.key_type {
        FullGameEventKeyType::String => {
            &&& k.val_string == str_of(named_value(ek, "val_string"@))
            &&& k.val_float is None && k.val_int is None && k.val_bool is None
        },
        FullGameEventKeyType::Float => {
            &&& k.val_float == float_of(named_value(ek, "val_float"@))
            &&& k.val_string is None && k.val_int is None && k.val_bool is None
        },
        FullGameEventKeyType::Long => {
            &&& k.val_int == varint_of(named_value(ek, "val_long"@))
            &&& k.val_string is None && k.val_float is None && k.val_bool is None
        },
        FullGameEventKeyType::Short => {
            &&& k.val_int == varint_of(named_value(ek, "val_short"@))
            &&& k.val_string is None && k.val_float is None && k.val_bool is None
        },
        FullGameEventKeyType::Byte => {
            &&& k.val_int == varint_of(named_value(ek, "val_byte"@))
            &&& k.val_string is None && k.val_float is None && k.val_bool is None
        },
        FullGameEventKeyType::Bool => {
            &&& varint_of(named_value(ek, "val_bool"@)) matches Some(x) && k.val_bool == Some(x > 0)
            &&& k.val_string is None && k.val_float is None && k.val_int is None
        },
    }
}

/// A key of an event is completed exactly when its listing gives a known key
/// type and a name and the event's key has the same type (and, for a bool, a
/// value).  The completed key has the listed name and type, and carries the
/// value of the field that the type names (for a long, `val_long`; for a
/// byte, `val_byte`; and so on).
pub proof fn law_event_key_value(listing_key: Value, ev: Value)
    ensures
        ({
            let lk = proto_fields_of(listing_key);
            let ek = proto_fields_of(ev);
            match event_key_spec(listing_key, ev) {
                Some(k) => {
                    &&& varint_of(named_value(lk, "key_type"@)) matches Some(t) && key_type_of(t) == Some(k.key_type)
                    &&& varint_of(named_value(ek, "val_type"@)) == varint_of(named_value(lk, "key_type"@))
                    &&& str_of(named_value(lk, "key_name"@)) == Some(k.key_name)
                    &&& carries_value(ek, k)
                },
                None => {
                    ||| varint_of(named_value(lk, "key_type"@)) is None
                    ||| varint_of(named_value(ek, "val_type"@)) != varint_of(named_value(lk, "key_type"@))
                    ||| key_type_of(varint_of(named_value(lk, "key_type"@))->Some_0) is None
                    ||| str_of(named_value(lk, "key_name"@)) is None
                    ||| (key_type_of(varint_of(named_value(lk, "key_type"@))->Some_0) == Some(FullGameEventKeyType::Bool)
                        && varint_of(named_value(ek, "val_bool"@)) is None)
                },
            }
        }),
{
}

/// The numbers of the key types: 1 string, 2 float, 3 long, 4 short, 5 byte
/// and 6 bool; any other number is no key type.
pub proof fn law_key_type_numbers(value: u64)
    ensures
        value == 1 <==> key_type_of(value) == Some(FullGameEventKeyType::String),
        value == 2 <==> key_type_of(value) == Some(FullGameEventKeyType::Float),
        value == 3 <==> key_type_of(value) == Some(FullGameEventKeyType::Long),
        value == 4 <==> key_type_of(value) == Some(FullGameEventKeyType::Short),
        value == 5 <==> key_type_of(value) == Some(FullGameEventKeyType::Byte),
        value == 6 <==> key_type_of(value) == Some(FullGameEventKeyType::Bool),
        (value < 1 || value > 6) <==> key_type_of(value) is None,
{
}

/// The first `n` keys of an event.
pub open spec fn event_keys_spec(listing_keys: Seq<Value>, event_keys: Seq<Value>, n: nat) -> Option<Seq<GameEventKeyModel>>
    decreases n,
{
    if n == 0 {
        Some(Seq::empty())
    } else {
        match event_keys_spec(listing_keys, event_keys, (n - 1) as nat) {
            None => None,
            Some(ks) => match event_key_spec(listing_keys[n - 1], event_keys[n - 1]) {
                None => None,
                Some(k) => Some(ks.push(k)),
            },
        }
    }
}

/// The index of the listing of event `id` (from index `i` on); `None` where
/// a listing before it has no id or there is none.
pub open spec fn listing_index(listings: Seq<Value>, id: u64, i: nat) -> Option<nat>
    decreases listings.len() - i,
{
    if i >= listings.len() {
        None
    } else {
        match varint_of(named_value(proto_fields_of(listings[i as int]), "event_id"@)) {
            None => None,
            Some(x) => if x == id {
                Some(i)
            } else {
                listing_index(listings, id, i + 1)
            },
        }
    }
}

/// A game event message with the fields `ge`, at tick `tick`, completed
/// from its listing.
pub open spec fn game_event_spec(listings: Seq<Value>, ge: Seq<(Seq<char>, Value)>, tick: i32, fi: int, mi: int) -> Option<
    GameEventModel,
> {
    match varint_of(named_value(ge, "event_id"@)) {
        None => None,
        Some(id) => match listing_index(listings, id, 0) {
            None => None,
            Some(k) => {
                let listing = proto_fields_of(listings[k as int]);
                let lkeys = list_of(named_value(listing, "DescriptorKeys"@));
                let ekeys = list_of(named_value(ge, "GameEventKeys"@));
                if lkeys.len() != ekeys.len() {
                    None
                } else {
                    match (event_keys_spec(lkeys, ekeys, ekeys.len()), str_of(named_value(listing, "name"@))) {
                        (Some(keys), Some(name)) => Some(
                            GameEventModel {
                                event_name: name,
                                event_id: id,
                                event_tick: tick,
                                event_keys: keys,
                                frame_index: fi,
                                message_index: mi,
                            },
                        ),
                        _ => None,
                    }
                }
            },
        },
    }
}

/// The decoded messages of a packet frame (none for another frame).
pub open spec fn packet_messages(f: Frame) -> Seq<MessageParseReturn> {
    match f.command {
        Command::Packet(pd) => pd.network_messages@,
        _ => Seq::empty(),
    }
}

/// The game events among the first `n` messages of a frame at tick `tick`.
pub open spec fn frame_events_spec(listings: Seq<Value>, msgs: Seq<MessageParseReturn>, fi: int, tick: i32, n: nat) -> Option<
    Seq<GameEventModel>,
>
    decreases n,
{
    if n == 0 {
        Some(Seq::empty())
    } else {
        match frame_events_spec(listings, msgs, fi, tick, (n - 1) as nat) {
            None => None,
            Some(es) => match msgs[n - 1].message {
                Some(m) => if m.id == GAME_EVENT_ID {
                    match game_event_spec(listings, m@.fields, tick, fi, n - 1) {
                        None => None,
                        Some(e) => Some(es.push(e)),
                    }
                } else {
                    Some(es)
                },
                None => Some(es),
            },
        }
    }
}

/// The game events of the first `n` frames.
pub open spec fn events_spec(listings: Seq<Value>, fs: Seq<Frame>, n: nat) -> Option<Seq<GameEventModel>>
    decreases n,
{
    if n == 0 {
        Some(Seq::empty())
    } else {
        match events_spec(listings, fs, (n - 1) as nat) {
            None => None,
            Some(es) => {
                let msgs = packet_messages(fs[n - 1]);
                match frame_events_spec(listings, msgs, n - 1, fs[n - 1].tick, msgs.len()) {
                    None => None,
                    Some(more) => Some(es + more),
                }
            },
        }
    }
}

/// The game events of a demo, completed from its game event list (the
/// first one of the sign-on frames, else of the other frames; no events
/// without one), each with the indices of its frame and message; `None`
/// where an event does not fit its listing.
pub open spec fn full_game_events_spec(df: DemoFile) -> Option<Seq<GameEventModel>> {
    match demo_message(df, GAME_EVENT_LIST_ID) {
        None => Some(Seq::empty()),
        Some(gel) => events_spec(list_of(named_value(gel@.fields, "Descriptors"@)), df.frames@, df.frames@.len()),
    }
}

/// Once the keys of an event cannot be read, more keys cannot either.
proof fn lemma_event_keys_none(listing_keys: Seq<Value>, event_keys: Seq<Value>, a: nat, b: nat)
    requires
        a <= b,
        event_keys_spec(listing_keys, event_keys, a) is None,
    ensures
        event_keys_spec(listing_keys, event_keys, b) is None,
    decreases b - a,
{
    if a < b {
        lemma_event_keys_none(listing_keys, event_keys, a, (b - 1) as nat);
    }
}

/// Once the events of a frame cannot be completed, they cannot with more
/// messages either.
proof fn lemma_frame_events_none(listings: Seq<Value>, msgs: Seq<MessageParseReturn>, fi: int, tick: i32, a: nat, b: nat)
    requires
        a <= b,
        frame_events_spec(listings, msgs, fi, tick, a) is None,
    ensures
        frame_events_spec(listings, msgs, fi, tick, b) is None,
    decreases b - a,
{
    if a < b {
        lemma_frame_events_none(listings, msgs, fi, tick, a, (b - 1) as nat);
    }
}

/// Once the events of a demo cannot be completed, they cannot with more
/// frames either.
proof fn lemma_events_none(listings: Seq<Value>, fs: Seq<Frame>, a: nat, b: nat)
    requires
        a <= b,
        events_spec(listings, fs, a) is None,
    ensures
        events_spec(listings, fs, b) is None,
    decreases b - a,
{
    if a < b {
        lemma_events_none(listings, fs, a, (b - 1) as nat);
    }
}

/// The integer of the named field of an embedded message value.
fn value_varint(v: &ProtobufValue, name: &str) -> (r: Option<u64>)
    ensures
        r == varint_of(named_value(proto_fields_of(value_view(*v)), name@)),
{
    match value_fields(v) {
        Some(fs) => named_varint(fs, name),
        None => {
            proof {
                lemma_named_value_empty(name@);
            }
            None
        },
    }
}

/// The key type with the given number.
fn key_type_from(value: u64) -> (r: Option<FullGameEventKeyType>)
    ensures
        r == key_type_of(value),
{
    match FullGameEventKeyType::try_from(value) {
        Ok(t) => Some(t),
        Err(_) => None,
    }
}

/// A key of an event, from the key of its listing and the value of the event.
fn event_key(listing_key: &ProtobufValue, ev: &ProtobufValue) -> (r: Option<FullGameEventKey>)
    ensures
        match event_key_spec(value_view(*listing_key), value_view(*ev)) {
            None => r is None,
            Some(k) => r matches Some(x) && key_view(x) == k,
        },
{
    proof {
        lemma_named_value_empty("key_name"@);
        lemma_named_value_empty("val_string"@);
        lemma_named_value_empty("val_float"@);
        lemma_named_value_empty("val_long"@);
        lemma_named_value_empty("val_byte"@);
        lemma_named_value_empty("val_short"@);
        lemma_named_value_empty("val_bool"@);
    }
    let listing_type = value_varint(listing_key, "key_type")?;
    let value_type = value_varint(ev, "val_type")?;
    if listing_type != value_type {
        return None;
    }
    let key_type = key_type_from(listing_type)?;
    let lk = value_fields(listing_key)?;
    let key_name = named_string(lk, "key_name")?.clone();
    let ek = match value_fields(ev) {
        Some(fs) => fs,
        None => {
            proof {
                lemma_named_value_empty("val_type"@);
            }
            return None;
        },
    };
    let mut val_string: Option<String> = None;
    let mut val_float: Option<u32> = None;
    let mut val_int: Option<u64> = None;
    let mut val_bool: Option<bool> = None;
    match key_type {
        FullGameEventKeyType::String => {
            val_string = match named_string(ek, "val_string") {
                Some(x) => Some(x.clone()),
                None => None,
            };
        },
        FullGameEventKeyType::Float => val_float = named_float(ek, "val_float"),
        FullGameEventKeyType::Long => val_int = named_varint(ek, "val_long"),
        FullGameEventKeyType::Byte => val_int = named_varint(ek, "val_byte"),
        FullGameEventKeyType::Short => val_int = named_varint(ek, "val_short"),
        FullGameEventKeyType::Bool => val_bool = Some(named_varint(ek, "val_bool")? > 0),
    }
    Some(FullGameEventKey { key_name, key_type, val_string, val_float, val_int, val_bool })
}

/// The fields of the listing of event `id`.
fn find_listing(listings: &Vec<ProtobufValue>, id: u64) -> (r: Option<&Vec<ProtobufField>>)
    ensures
        match listing_index(values_model(listings@), id, 0) {
            Some(k) => k < listings@.len() && (r matches Some(fs) && proto_fields_of(values_model(listings@)[k as int])
                == fields_model(fs@)),
            None => r is None,
        },
{
    let ghost ls = values_model(listings@);
    let mut i: usize = 0;
    while i < listings.len()
        invariant
            i <= listings@.len(),
            ls == values_model(listings@),
            listing_index(ls, id, 0) == listing_index(ls, id, i as nat),
        decreases listings@.len() - i,
    {
        let x = value_varint(&listings[i], "event_id")?;
        if x == id {
            let fs = value_fields(&listings[i])?;
            return Some(fs);
        }
        i = i + 1;
    }
    None
}

/// A game event message completed from its listing.
fn game_event(
    listings: &Vec<ProtobufValue>,
    ge: &Vec<ProtobufField>,
    tick: i32,
    frame_index: usize,
    message_index: usize,
) -> (r: Option<FullGameEvent>)
    ensures
        match game_event_spec(values_model(listings@), fields_model(ge@), tick, frame_index as int, message_index as int) {
            None => r is None,
            Some(e) => r matches Some(x) && event_view(x) == e,
        },
{
    proof {
        lemma_named_value_empty("DescriptorKeys"@);
    }
    let ghost ls = values_model(listings@);
    let event_id = named_varint(ge, "event_id")?;
    let listing = find_listing(listings, event_id)?;
    let ghost lkeys = list_of(named_value(fields_model(listing@), "DescriptorKeys"@));
    let ghost ekeys = list_of(named_value(fields_model(ge@), "GameEventKeys"@));
    let listing_keys = named_list(listing, "DescriptorKeys");
    let event_keys_in = named_list(ge, "GameEventKeys");
    let n_listing: usize = match listing_keys {
        Some(l) => l.len(),
        None => 0,
    };
    let n_event: usize = match event_keys_in {
        Some(l) => l.len(),
        None => 0,
    };
    if n_listing != n_event {
        return None;
    }
    let mut event_keys: Vec<FullGameEventKey> = Vec::new();
    let mut i: usize = 0;
    while i < n_event
        invariant
            i <= n_event,
            n_event == ekeys.len(),
            n_listing == lkeys.len(),
            n_listing == n_event,
            listing_keys matches Some(l) ==> values_model(l@) == lkeys,
            event_keys_in matches Some(l) ==> values_model(l@) == ekeys,
            listing_keys is None ==> lkeys.len() == 0,
            event_keys_in is None ==> ekeys.len() == 0,
            event_keys_spec(lkeys, ekeys, ekeys.len()) is None ==> game_event_spec(
                values_model(listings@),
                fields_model(ge@),
                tick,
                frame_index as int,
                message_index as int,
            ) is None,
            event_keys_spec(lkeys, ekeys, i as nat) matches Some(ks) && keys_view(event_keys@) == ks,
        decreases n_event - i,
    {
        let lk = match listing_keys {
            Some(l) => &l[i],
            None => {
                proof {
                    assert(false);
                }
                return None;
            },
        };
        let ek = match event_keys_in {
            Some(l) => &l[i],
            None => {
                proof {
                    assert(false);
                }
                return None;
            },
        };
        proof {
            assert(value_view(*lk) == lkeys[i as int]);
            assert(value_view(*ek) == ekeys[i as int]);
        }
        let key = match event_key(lk, ek) {
            Some(k) => k,
            None => {
                proof {
                    lemma_event_keys_none(lkeys, ekeys, (i + 1) as nat, n_event as nat);
                }
                return None;
            },
        };
        let ghost before = event_keys@;
        event_keys.push(key);
        proof {
            assert(keys_view(event_keys@) =~= keys_view(before).push(key_view(key)));
        }
        i = i + 1;
    }
    let event_name = named_string(listing, "name")?.clone();
    Some(FullGameEvent { event_name, event_id, event_tick: tick, event_keys, frame_index, message_index })
}

impl DemoFile {
    /// The game events of the packet frames, in order, completed from the
    /// game event list; `None` where an event does not fit its listing.
    pub fn checked_full_game_events(&self) -> (r: Option<Vec<FullGameEvent>>)
        ensures
            match full_game_events_spec(*self) {
                None => r is None,
                Some(es) => r matches Some(v) && events_view(v@) == es,
            },
    {
        let mut events: Vec<FullGameEvent> = Vec::new();
        let game_event_list = match self.get_game_event_list() {
            Some(gel) => gel,
            None => {
                proof {
                    assert(events_view(events@) =~= Seq::<GameEventModel>::empty());
                }
                return Some(events);
            },
        };
        let empty: Vec<ProtobufValue> = Vec::new();
        let listings = match named_list(&game_event_list.fields, "Descriptors") {
            Some(l) => l,
            None => &empty,
        };
        let ghost ls = values_model(listings@);
        proof {
            assert(ls == list_of(named_value(game_event_list@.fields, "Descriptors"@)));
            assert(events_view(events@) =~= Seq::<GameEventModel>::empty());
        }
        let fs = &self.frames;
        let mut i: usize = 0;
        while i < fs.len()
            invariant
                i <= fs@.len(),
                fs@ == self.frames@,
                ls == values_model(listings@),
                full_game_events_spec(*self) == events_spec(ls, fs@, fs@.len()),
                events_spec(ls, fs@, i as nat) matches Some(es) && events_view(events@) == es,
            decreases fs@.len() - i,
        {
            let ghost before = events@;
            let ghost es0 = events_spec(ls, fs@, i as nat)->Some_0;
            let f = &fs[i];
            let tick = f.tick;
            let ghost msgs_spec = packet_messages(*f);
            match &f.command {
                Command::Packet(pd) => {
                    let msgs = &pd.network_messages;
                    let mut j: usize = 0;
                    while j < msgs.len()
                        invariant
                            j <= msgs@.len(),
                            i < fs@.len(),
                            fs@ == self.frames@,
                            msgs@ == msgs_spec,
                            msgs_spec == packet_messages(fs@[i as int]),
                            tick == fs@[i as int].tick,
                            events_spec(ls, fs@, i as nat) == Some(es0),
                            full_game_events_spec(*self) == events_spec(ls, fs@, fs@.len()),
                            ls == values_model(listings@),
                            frame_events_spec(ls, msgs_spec, i as int, tick, j as nat) matches Some(more)
                                && events_view(events@) == es0 + more,
                        decreases msgs@.len() - j,
                    {
                        let ghost more0 = frame_events_spec(ls, msgs_spec, i as int, tick, j as nat)->Some_0;
                        let ghost mid = events@;
                        if let Some(m) = &msgs[j].message {
                            if m.id == GAME_EVENT_ID {
                                let e = match game_event(listings, &m.fields, tick, i, j) {
                                    Some(e) => e,
                                    None => {
                                        proof {
                                            lemma_frame_events_none(ls, msgs_spec, i as int, tick, (j + 1) as nat, msgs_spec.len());
                                            lemma_events_none(ls, fs@, (i + 1) as nat, fs@.len());
                                        }
                                        return None;
                                    },
                                };
                                events.push(e);
                                proof {
                                    assert(events_view(events@) =~= events_view(mid).push(event_view(e)));
                                    assert(es0 + more0.push(event_view(e)) =~= (es0 + more0).push(event_view(e)));
                                }
                            }
                        }
                        j = j + 1;
                    }
                },
                _ => {
                    proof {
                        assert(es0 + Seq::<GameEventModel>::empty() =~= es0);
                    }
                },
            }
            proof {
                let more = frame_events_spec(ls, msgs_spec, i as int, tick, msgs_spec.len())->Some_0;
                assert(events_spec(ls, fs@, (i + 1) as nat) == Some(es0 + more));
            }
            i = i + 1;
        }
        Some(events)
    }

    /// The game events of the packet frames, in order, completed from the
    /// game event list.
    pub fn get_full_game_events(&self) -> (r: Vec<FullGameEvent>)
        requires
            full_game_events_spec(*self) is Some,
        ensures
            events_view(r@) == full_game_events_spec(*self)->Some_0,
    {
        match self.checked_full_game_events() {
            Some(events) => events,
            None => {
                proof {
                    assert(false);
                }
                Vec::new()
            },
        }
    }
}

/// Whether an event agrees with its listing in `listings`: the listing has
/// the event's id, the event carries the listing's name, and the event has
/// one key per key of the listing, with the listing's key name and type.
pub open spec fn follows_listing(listings: Seq<Value>, e: GameEventModel) -> bool {
    match listing_index(listings, e.event_id, 0) {
        None => false,
        Some(k) => {
            let listing = proto_fields_of(listings[k as int]);
            let lkeys = list_of(named_value(listing, "DescriptorKeys"@));
            &&& k < listings.len()
            &&& str_of(named_value(listing, "name"@)) == Some(e.event_name)
            &&& e.event_keys.len() == lkeys.len()
            &&& forall|j: int| 0 <= j < lkeys.len() ==> {
                let lk = proto_fields_of(#[trigger] lkeys[j]);
                &&& str_of(named_value(lk, "key_name"@)) == Some(e.event_keys[j].key_name)
                &&& varint_of(named_value(lk, "key_type"@)) matches Some(t) && key_type_of(t) == Some(
                    e.event_keys[j].key_type,
                )
            }
        },
    }
}

proof fn lemma_listing_index_bound(listings: Seq<Value>, id: u64, i: nat)
    requires
        listing_index(listings, id, i) is Some,
    ensures
        listing_index(listings, id, i)->Some_0 < listings.len(),
    decreases listings.len() - i,
{
    if i < listings.len() && !(varint_of(named_value(proto_fields_of(listings[i as int]), "event_id"@)) == Some(id)) {
        lemma_listing_index_bound(listings, id, i + 1);
    }
}

proof fn lemma_event_keys_follow(listing_keys: Seq<Value>, event_keys: Seq<Value>, n: nat)
    requires
        n <= listing_keys.len(),
        event_keys_spec(listing_keys, event_keys, n) is Some,
    ensures
        ({
            let ks = event_keys_spec(listing_keys, event_keys, n)->Some_0;
            &&& ks.len() == n
            &&& forall|j: int| 0 <= j < n ==> {
                let lk = proto_fields_of(#[trigger] listing_keys[j]);
                &&& str_of(named_value(lk, "key_name"@)) == Some(ks[j].key_name)
                &&& varint_of(named_value(lk, "key_type"@)) matches Some(t) && key_type_of(t) == Some(ks[j].key_type)
                &&& carries_value(proto_fields_of(event_keys[j]), ks[j])
            }
        }),
    decreases n,
{
    if n > 0 {
        lemma_event_keys_follow(listing_keys, event_keys, (n - 1) as nat);
        law_event_key_value(listing_keys[n - 1], event_keys[n - 1]);
    }
}

/// Whether event `e` has one key per key of the game event message with the
/// fields `fields`, each carrying the value of that key.
pub open spec fn carries_key_values(fields: Seq<(Seq<char>, Value)>, e: GameEventModel) -> bool {
    let ekeys = list_of(named_value(fields, "GameEventKeys"@));
    &&& e.event_keys.len() == ekeys.len()
    &&& forall|j: int| 0 <= j < ekeys.len() ==> carries_value(proto_fields_of(#[trigger] ekeys[j]), e.event_keys[j])
}

/// The fields of the game event message that `e` says it was built from.
pub open spec fn source_fields(fs: Seq<Frame>, e: GameEventModel) -> Seq<(Seq<char>, Value)> {
    packet_messages(fs[e.frame_index])[e.message_index].message->Some_0@.fields
}

proof fn lemma_game_event_follows(listings: Seq<Value>, ge: Seq<(Seq<char>, Value)>, tick: i32, fi: int, mi: int)
    requires
        game_event_spec(listings, ge, tick, fi, mi) is Some,
    ensures
        ({
            let e = game_event_spec(listings, ge, tick, fi, mi)->Some_0;
            &&& follows_listing(listings, e)
            &&& carries_key_values(ge, e)
            &&& e.event_tick == tick
            &&& e.frame_index == fi
            &&& e.message_index == mi
        }),
{
    let id = varint_of(named_value(ge, "event_id"@))->Some_0;
    lemma_listing_index_bound(listings, id, 0);
    let k = listing_index(listings, id, 0)->Some_0;
    let listing = proto_fields_of(listings[k as int]);
    let lkeys = list_of(named_value(listing, "DescriptorKeys"@));
    let ekeys = list_of(named_value(ge, "GameEventKeys"@));
    lemma_event_keys_follow(lkeys, ekeys, ekeys.len());
    let e = game_event_spec(listings, ge, tick, fi, mi)->Some_0;
    assert forall|j: int| 0 <= j < ekeys.len() implies carries_value(proto_fields_of(#[trigger] ekeys[j]), e.event_keys[j]) by {
        let _ = lkeys[j];
    }
}

/// Whether an event is found where it says: at message `message_index` of
/// packet frame `frame_index`, a decoded game event, at that frame's tick.
pub open spec fn located_in(fs: Seq<Frame>, e: GameEventModel) -> bool {
    &&& 0 <= e.frame_index < fs.len()
    &&& 0 <= e.message_index < packet_messages(fs[e.frame_index]).len()
    &&& packet_messages(fs[e.frame_index])[e.message_index].message matches Some(m) && m.id == GAME_EVENT_ID
    &&& e.event_tick == fs[e.frame_index].tick
}

proof fn lemma_frame_events_follow(listings: Seq<Value>, msgs: Seq<MessageParseReturn>, fi: int, tick: i32, n: nat)
    requires
        n <= msgs.len(),
        frame_events_spec(listings, msgs, fi, tick, n) is Some,
    ensures
        forall|i: int| 0 <= i < frame_events_spec(listings, msgs, fi, tick, n)->Some_0.len() ==> {
            let e = #[trigger] frame_events_spec(listings, msgs, fi, tick, n)->Some_0[i];
            &&& follows_listing(listings, e)
            &&& e.event_tick == tick
            &&& e.frame_index == fi
            &&& 0 <= e.message_index < n
            &&& msgs[e.message_index].message matches Some(m) && m.id == GAME_EVENT_ID
            &&& carries_key_values(msgs[e.message_index].message->Some_0@.fields, e)
        },
    decreases n,
{
    if n > 0 {
        lemma_frame_events_follow(listings, msgs, fi, tick, (n - 1) as nat);
        if let Some(m) = msgs[n - 1].message {
            if m.id == GAME_EVENT_ID && game_event_spec(listings, m@.fields, tick, fi, n - 1) is Some {
                lemma_game_event_follows(listings, m@.fields, tick, fi, n - 1);
            }
        }
    }
}

proof fn lemma_events_follow(listings: Seq<Value>, fs: Seq<Frame>, n: nat)
    requires
        n <= fs.len(),
        events_spec(listings, fs, n) is Some,
    ensures
        forall|i: int| 0 <= i < events_spec(listings, fs, n)->Some_0.len() ==> {
            let e = #[trigger] events_spec(listings, fs, n)->Some_0[i];
            follows_listing(listings, e) && located_in(fs, e) && e.frame_index < n && carries_key_values(
                source_fields(fs, e),
                e,
            )
        },
    decreases n,
{
    if n > 0 {
        lemma_events_follow(listings, fs, (n - 1) as nat);
        let es = events_spec(listings, fs, (n - 1) as nat)->Some_0;
        let msgs = packet_messages(fs[n - 1]);
        lemma_frame_events_follow(listings, msgs, n - 1, fs[n - 1].tick, msgs.len());
        let more = frame_events_spec(listings, msgs, n - 1, fs[n - 1].tick, msgs.len())->Some_0;
        let all = events_spec(listings, fs, n)->Some_0;
        assert(all == es + more);
        assert forall|i: int| 0 <= i < all.len() implies {
            let e = #[trigger] all[i];
            follows_listing(listings, e) && located_in(fs, e) && e.frame_index < n && carries_key_values(
                source_fields(fs, e),
                e,
            )
        } by {
            if i < es.len() {
                assert(all[i] == es[i]);
            } else {
                assert(all[i] == more[i - es.len()]);
            }
        }
    }
}

/// Every game event that `get_full_game_events` returns agrees with its
/// listing in the game event list (id, name, and the names and types of its
/// keys, one per listed key), and its frame index and message index locate
/// the game event message it was built from, whose frame tick it carries.
pub proof fn law_game_events_follow_listing(df: DemoFile)
    requires
        full_game_events_spec(df) is Some,
        demo_message(df, GAME_EVENT_LIST_ID) is Some,
    ensures
        ({
            let gel = demo_message(df, GAME_EVENT_LIST_ID)->Some_0;
            let listings = list_of(named_value(gel@.fields, "Descriptors"@));
            let es = full_game_events_spec(df)->Some_0;
            forall|i: int| 0 <= i < es.len() ==> {
                &&& follows_listing(listings, #[trigger] es[i])
                &&& located_in(df.frames@, es[i])
            }
        }),
{
    let gel = demo_message(df, GAME_EVENT_LIST_ID)->Some_0;
    let listings = list_of(named_value(gel@.fields, "Descriptors"@));
    lemma_events_follow(listings, df.frames@, df.frames@.len());
}

/// Every game event that `get_full_game_events` returns has one key per key
/// of the game event message it was built from, and each key carries that
/// key's value from the field that its listed type names (a long key the
/// integer of `val_long`, a byte key that of `val_byte`, and so on).
pub proof fn law_game_event_key_values(df: DemoFile)
    requires
        full_game_events_spec(df) is Some,
        demo_message(df, GAME_EVENT_LIST_ID) is Some,
    ensures
        ({
            let es = full_game_events_spec(df)->Some_0;
            forall|i: int| 0 <= i < es.len() ==> carries_key_values(source_fields(df.frames@, #[trigger] es[i]), es[i])
        }),
{
    let gel = demo_message(df, GAME_EVENT_LIST_ID)->Some_0;
    let listings = list_of(named_value(gel@.fields, "Descriptors"@));
    lemma_events_follow(listings, df.frames@, df.frames@.len());
}

/// A demo without a game event list has no full game events.
pub proof fn law_no_list_no_events(df: DemoFile)
    requires
        demo_message(df, GAME_EVENT_LIST_ID) is None,
    ensures
        full_game_events_spec(df) == Some(Seq::<GameEventModel>::empty()),
{
}

} // verus!
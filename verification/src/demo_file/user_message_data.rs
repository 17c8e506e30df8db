use vstd::prelude::*;
use crate::message_schema::{
    DecodedMessage, MessageTable, named_value, named_varint, named_bytes, varint_of, bytes_of,
    spec_message_with_id,
};
use crate::demo_file::packet::{MessageParseReturn, return_matches};
use crate::demo_file::frame::{Frame, Command};
use crate::demo_file::game_event::packet_messages;
use crate::demo_file::DemoFile;
use crate::reader::ByteReader;

verus! {

/// The id of the `UserMessage` network message.
pub const USER_MESSAGE_ID: u64 = 23;

/// A decoded user message, with where its carrier was found: the index of
/// the frame, the index of the message in the frame, and the tick.
#[derive(Debug)]
pub struct ParsedUserMessage {
    pub frame_index: usize,
    pub message_index: usize,
    pub message_return: MessageParseReturn,
    pub tick: i32,
}

/// A network message that carries a user message, with where it was found:
/// frame index, message index, tick.
pub type UserMessageData = (int, int, i32, DecodedMessage);

/// The user-message carriers among the first `n` messages of frame `fi` at
/// tick `tick`; `None` where one of them was not decoded.
pub open spec fn frame_user_data_spec(msgs: Seq<MessageParseReturn>, fi: int, tick: i32, n: nat) -> Option<
    Seq<UserMessageData>,
>
    decreases n,
{
    if n == 0 {
        Some(Seq::empty())
    } else {
        match frame_user_data_spec(msgs, fi, tick, (n - 1) as nat) {
            None => None,
            Some(ds) => match msgs[n - 1].message {
                None => None,
                Some(m) => if m.id == USER_MESSAGE_ID {
                    Some(ds.push((fi, n - 1, tick, m)))
                } else {
                    Some(ds)
                },
            },
        }
    }
}

/// The user-message carriers of the first `n` frames.
pub open spec fn user_data_spec(fs: Seq<Frame>, n: nat) -> Option<Seq<UserMessageData>>
    decreases n,
{
    if n == 0 {
        Some(Seq::empty())
    } else {
        match user_data_spec(fs, (n - 1) as nat) {
            None => None,
            Some(ds) => {
                let msgs = packet_messages(fs[n - 1]);
                match frame_user_data_spec(msgs, n - 1, fs[n - 1].tick, msgs.len()) {
                    None => None,
                    Some(more) => Some(ds + more),
                }
            },
        }
    }
}

/// The type of the user message that a carrier holds.
pub open spec fn carried_type(m: DecodedMessage) -> Option<u64> {
    varint_of(named_value(m@.fields, "msg_type"@))
}

/// The bytes of the user message that a carrier holds.
pub open spec fn carried_data(m: DecodedMessage) -> Option<Seq<u8>> {
    bytes_of(named_value(m@.fields, "msg_data"@))
}

/// Whether the user messages of a demo can be read: every message of its
/// packet frames was decoded, and every user-message carrier has a type and
/// data.
pub open spec fn user_messages_defined(df: DemoFile) -> bool {
    match user_data_spec(df.frames@, df.frames@.len()) {
        None => false,
        Some(ds) => forall|i: int| 0 <= i < ds.len() ==> #[trigger] carried_type(ds[i].3) is Some && carried_data(ds[i].3) is Some,
    }
}

/// Whether parsed user messages are the decoding of the carriers `ds` with
/// the user message declarations `specs`.
pub open spec fn user_messages_match(r: Seq<ParsedUserMessage>, ds: Seq<UserMessageData>, specs: Seq<crate::message_schema::MessageSpec>) -> bool {
    &&& r.len() == ds.len()
    &&& forall|i: int| 0 <= i < r.len() ==> {
        &&& #[trigger] r[i].frame_index == ds[i].0
        &&& r[i].message_index == ds[i].1
        &&& r[i].tick == ds[i].2
        &&& return_matches(r[i].message_return, spec_message_with_id(
            specs,
            carried_type(ds[i].3)->Some_0,
            carried_data(ds[i].3)->Some_0,
        ))
    }
}

/// Once a frame has an undecoded message, its carriers cannot be listed.
proof fn lemma_frame_user_data_none(msgs: Seq<MessageParseReturn>, fi: int, tick: i32, a: nat, b: nat)
    requires
        a <= b,
        frame_user_data_spec(msgs, fi, tick, a) is None,
    ensures
        frame_user_data_spec(msgs, fi, tick, b) is None,
    decreases b - a,
{
    if a < b {
        lemma_frame_user_data_none(msgs, fi, tick, a, (b - 1) as nat);
    }
}

/// Once a demo has an undecoded message, its carriers cannot be listed.
proof fn lemma_user_data_none(fs: Seq<Frame>, a: nat, b: nat)
    requires
        a <= b,
        user_data_spec(fs, a) is None,
    ensures
        user_data_spec(fs, b) is None,
    decreases b - a,
{
    if a < b {
        lemma_user_data_none(fs, a, (b - 1) as nat);
    }
}

/// The models of the carriers found.
pub open spec fn user_data_view(v: Seq<(usize, usize, i32, &DecodedMessage)>) -> Seq<UserMessageData> {
    Seq::new(v.len(), |i: int| (v[i].0 as int, v[i].1 as int, v[i].2, *v[i].3))
}

impl DemoFile {
    /// The user-message carriers of the packet frames, in order; `None`
    /// where a message of a packet frame was not decoded.
    fn get_all_user_message_data(&self) -> (r: Option<Vec<(usize, usize, i32, &DecodedMessage)>>)
        ensures
            match user_data_spec(self.frames@, self.frames@.len()) {
                None => r is None,
                Some(ds) => r matches Some(v) && user_data_view(v@) == ds,
            },
    {
        let mut user_message_data: Vec<(usize, usize, i32, &DecodedMessage)> = Vec::new();
        let fs = &self.frames;
        let mut it: usize = 0;
        proof {
            assert(user_data_view(user_message_data@) =~= Seq::<UserMessageData>::empty());
        }
        while it < fs.len()
            invariant
                it <= fs@.len(),
                fs@ == self.frames@,
                user_data_spec(fs@, it as nat) matches Some(ds) && user_data_view(user_message_data@) == ds,
            decreases fs@.len() - it,
        {
            let ghost ds0 = user_data_spec(fs@, it as nat)->Some_0;
            let f = &fs[it];
            let tick = f.tick;
            let ghost msgs_spec = packet_messages(*f);
            match &f.command {
                Command::Packet(pd) => {
                    let msgs = &pd.network_messages;
                    let mut jt: usize = 0;
                    while jt < msgs.len()
                        invariant
                            jt <= msgs@.len(),
                            it < fs@.len(),
                            fs@ == self.frames@,
                            msgs@ == msgs_spec,
                            msgs_spec == packet_messages(fs@[it as int]),
                            tick == fs@[it as int].tick,
                            user_data_spec(fs@, it as nat) == Some(ds0),
                            frame_user_data_spec(msgs_spec, it as int, tick, jt as nat) matches Some(more)
                                && user_data_view(user_message_data@) == ds0 + more,
                        decreases msgs@.len() - jt,
                    {
                        let ghost more0 = frame_user_data_spec(msgs_spec, it as int, tick, jt as nat)->Some_0;
                        let ghost mid = user_message_data@;
                        let msg = match &msgs[jt].message {
                            Some(m) => m,
                            None => {
                                proof {
                                    lemma_frame_user_data_none(msgs_spec, it as int, tick, (jt + 1) as nat, msgs_spec.len());
                                    lemma_user_data_none(fs@, (it + 1) as nat, fs@.len());
                                }
                                return None;
                            },
                        };
                        if msg.id == USER_MESSAGE_ID {
                            user_message_data.push((it, jt, tick, msg));
                            proof {
                                assert(user_data_view(user_message_data@) =~= user_data_view(mid).push(
                                    (it as int, jt as int, tick, *msg),
                                ));
                                assert(ds0 + more0.push((it as int, jt as int, tick, *msg)) =~= (ds0 + more0).push(
                                    (it as int, jt as int, tick, *msg),
                                ));
                            }
                        }
                        jt = jt + 1;
                    }
                },
                _ => {
                    proof {
                        assert(ds0 + Seq::<UserMessageData>::empty() =~= ds0);
                    }
                },
            }
            it = it + 1;
        }
        Some(user_message_data)
    }

    /// The user messages carried by the packet frames, in order, decoded with
    /// the user message declarations `user`; `None` where a message of a
    /// packet frame was not decoded or a carrier lacks its type or data.
    pub fn checked_user_messages(&self, user: &MessageTable) -> (r: Option<Vec<ParsedUserMessage>>)
        ensures
            user_messages_defined(*self) ==> (r matches Some(v) && user_messages_match(
                v@,
                user_data_spec(self.frames@, self.frames@.len())->Some_0,
                user.messages@,
            )),
            !user_messages_defined(*self) ==> r is None,
    {
        let all_user_message_data = self.get_all_user_message_data()?;
        let ghost ds = user_data_spec(self.frames@, self.frames@.len())->Some_0;
        let mut user_messages: Vec<ParsedUserMessage> = Vec::new();
        let mut i: usize = 0;
        while i < all_user_message_data.len()
            invariant
                i <= all_user_message_data@.len(),
                user_data_view(all_user_message_data@) == ds,
                ds == user_data_spec(self.frames@, self.frames@.len())->Some_0,
                user_data_spec(self.frames@, self.frames@.len()) is Some,
                forall|k: int| 0 <= k < i ==> #[trigger] carried_type(ds[k].3) is Some && carried_data(ds[k].3) is Some,
                user_messages_match(user_messages@, ds.take(i as int), user.messages@),
            decreases all_user_message_data@.len() - i,
        {
            let msg = all_user_message_data[i];
            proof {
                assert(ds[i as int] == (msg.0 as int, msg.1 as int, msg.2, *msg.3));
            }
            let data = match named_bytes(&msg.3.fields, "msg_data") {
                Some(d) => d,
                None => {
                    proof {
                        assert(carried_data(ds[i as int].3) is None);
                    }
                    return None;
                },
            };
            let msg_type = match named_varint(&msg.3.fields, "msg_type") {
                Some(t) => t,
                None => {
                    proof {
                        assert(carried_type(ds[i as int].3) is None);
                    }
                    return None;
                },
            };
            let mut reader = ByteReader::new(data.as_slice());
            let ghost expected = spec_message_with_id(user.messages@, msg_type, data@);
            proof {
                assert(carried_type(ds[i as int].3) == Some(msg_type));
                assert(carried_data(ds[i as int].3) == Some(data@));
            }
            let message_return = match user.parse_from_id_and_reader(msg_type, &mut reader) {
                Ok((inner_msg, warns)) => MessageParseReturn { message: Some(inner_msg), warnings: Some(warns), err: None },
                Err(e) => MessageParseReturn { message: None, warnings: None, err: Some(e) },
            };
            proof {
                assert(return_matches(message_return, expected));
            }
            let ghost before = user_messages@;
            user_messages.push(ParsedUserMessage { frame_index: msg.0, message_index: msg.1, message_return, tick: msg.2 });
            proof {
                let dsi = ds.take(i as int + 1);
                assert(dsi =~= ds.take(i as int).push(ds[i as int]));
                assert forall|k: int| 0 <= k < user_messages@.len() implies {
                    &&& #[trigger] user_messages@[k].frame_index == dsi[k].0
                    &&& user_messages@[k].message_index == dsi[k].1
                    &&& user_messages@[k].tick == dsi[k].2
                    &&& return_matches(user_messages@[k].message_return, spec_message_with_id(
                        user.messages@,
                        carried_type(dsi[k].3)->Some_0,
                        carried_data(dsi[k].3)->Some_0,
                    ))
                } by {
                    if k < i {
                        assert(user_messages@[k] == before[k]);
                        assert(dsi[k] == ds.take(i as int)[k]);
                    }
                }
            }
            i = i + 1;
        }
        proof {
            assert(ds.take(ds.len() as int) =~= ds);
        }
        Some(user_messages)
    }

    /// The user messages carried by the packet frames, in order, decoded with
    /// the user message declarations `user`.
    pub fn get_user_messages(&self, user: &MessageTable) -> (r: Vec<ParsedUserMessage>)
        requires
            user_messages_defined(*self),
        ensures
            user_messages_match(r@, user_data_spec(self.frames@, self.frames@.len())->Some_0, user.messages@),
    {
        match self.checked_user_messages(user) {
            Some(v) => v,
            None => {
                proof {
                    assert(false);
                }
                Vec::new()
            },
        }
    }
}

/// Whether a carrier entry points at its carrier: in frame `d.0`, at
/// message `d.1`, with the tick of that frame.
pub open spec fn locates(fs: Seq<Frame>, d: UserMessageData) -> bool {
    &&& 0 <= d.0 < fs.len()
    &&& 0 <= d.1 < packet_messages(fs[d.0]).len()
    &&& packet_messages(fs[d.0])[d.1].message == Some(d.3)
    &&& d.3.id == USER_MESSAGE_ID
    &&& d.2 == fs[d.0].tick
}

proof fn lemma_frame_user_data_locates(msgs: Seq<MessageParseReturn>, fi: int, tick: i32, n: nat)
    requires
        n <= msgs.len(),
        frame_user_data_spec(msgs, fi, tick, n) is Some,
    ensures
        forall|i: int| 0 <= i < frame_user_data_spec(msgs, fi, tick, n)->Some_0.len() ==> {
            let d = #[trigger] frame_user_data_spec(msgs, fi, tick, n)->Some_0[i];
            &&& d.0 == fi
            &&& 0 <= d.1 < n
            &&& msgs[d.1].message == Some(d.3)
            &&& d.3.id == USER_MESSAGE_ID
            &&& d.2 == tick
        },
    decreases n,
{
    if n > 0 {
        lemma_frame_user_data_locates(msgs, fi, tick, (n - 1) as nat);
    }
}

proof fn lemma_user_data_locates(fs: Seq<Frame>, n: nat)
    requires
        n <= fs.len(),
        user_data_spec(fs, n) is Some,
    ensures
        forall|i: int| 0 <= i < user_data_spec(fs, n)->Some_0.len() ==> {
            let d = #[trigger] user_data_spec(fs, n)->Some_0[i];
            &&& locates(fs, d)
            &&& d.0 < n
        },
    decreases n,
{
    if n > 0 {
        lemma_user_data_locates(fs, (n - 1) as nat);
        let ds = user_data_spec(fs, (n - 1) as nat)->Some_0;
        let msgs = packet_messages(fs[n - 1]);
        lemma_frame_user_data_locates(msgs, n - 1, fs[n - 1].tick, msgs.len());
        let more = frame_user_data_spec(msgs, n - 1, fs[n - 1].tick, msgs.len())->Some_0;
        let all = user_data_spec(fs, n)->Some_0;
        assert(all == ds + more);
        assert forall|i: int| 0 <= i < all.len() implies locates(fs, #[trigger] all[i]) && all[i].0 < n by {
            if i < ds.len() {
                assert(all[i] == ds[i]);
            } else {
                assert(all[i] == more[i - ds.len()]);
            }
        }
    }
}

/// Every user message that `get_user_messages` returns points at the
/// network message that carried it: its frame index and message index
/// locate a decoded `UserMessage` in a packet frame, and its tick is the
/// tick of that frame.
pub proof fn law_user_messages_locate_carriers(df: DemoFile, user: Seq<crate::message_schema::MessageSpec>, r: Seq<ParsedUserMessage>)
    requires
        user_messages_defined(df),
        user_messages_match(r, user_data_spec(df.frames@, df.frames@.len())->Some_0, user),
    ensures
        forall|i: int| 0 <= i < r.len() ==> {
            let f = df.frames@[#[trigger] r[i].frame_index as int];
            &&& r[i].frame_index < df.frames@.len()
            &&& r[i].message_index < packet_messages(f).len()
            &&& packet_messages(f)[r[i].message_index as int].message matches Some(m) && m.id == USER_MESSAGE_ID
            &&& r[i].tick == f.tick
        },
{
    let ds = user_data_spec(df.frames@, df.frames@.len())->Some_0;
    lemma_user_data_locates(df.frames@, df.frames@.len());
    assert forall|i: int| 0 <= i < r.len() implies {
        let f = df.frames@[#[trigger] r[i].frame_index as int];
        &&& r[i].frame_index < df.frames@.len()
        &&& r[i].message_index < packet_messages(f).len()
        &&& packet_messages(f)[r[i].message_index as int].message matches Some(m) && m.id == USER_MESSAGE_ID
        &&& r[i].tick == f.tick
    } by {
        assert(locates(df.frames@, ds[i]));
    }
}

} // verus!
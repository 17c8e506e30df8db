use vstd::prelude::*;
use crate::message_schema::{
    MessageSpec, message_declared, field_declared,
    MessageTable, FieldKind, field, proto_field, message, DecodedMessage, named_value, named_varint, named_bytes,
    varint_of, bytes_of,
};
use crate::bitbuf::{BitBuf, ubit_var_extra, ubit_var_value};
use crate::bitmath::{bits_at, lemma_bits_bound, lemma_bits_prefix, lemma_bits_shift};
use vstd::arithmetic::power2::{pow2, lemma2_to64, lemma_pow2_strictly_increases};
use crate::demo_file::packet::netmessage::update_flags::{LEAVE_PVS, DELETE, ENTER_PVS};
use ilog::IntLog;

pub mod update_flags;

verus! {

/// The id of the `SendTable` network message.
pub const SEND_TABLE_ID: u64 = 9;

/// Whether `s` holds the declared network messages, in order: for each its
/// name, id and fields (name, number, kind, optional, repeated, embedded fields).
pub open spec fn net_messages_declared(s: Seq<MessageSpec>) -> bool {
    &&& s.len() == 23
    &&& message_declared(s[0], "Nop"@, 0, 0)
    &&& message_declared(s[1], "Tick"@, 4, 4)
    &&& field_declared(s[1].fields@[0], "current_tick"@, 1, FieldKind::VarInt, false, false, 0)
    &&& field_declared(s[1].fields@[1], "host_computation_time"@, 4, FieldKind::VarInt, false, false, 0)
    &&& field_declared(s[1].fields@[2], "host_computation_std_dev"@, 5, FieldKind::VarInt, false, false, 0)
    &&& field_declared(s[1].fields@[3], "host_frame_start_time_std_dev"@, 6, FieldKind::VarInt, false, false, 0)
    &&& message_declared(s[2], "StringCmd"@, 5, 1)
    &&& field_declared(s[2].fields@[0], "command"@, 1, FieldKind::String, false, false, 0)
    &&& message_declared(s[3], "SetConVar"@, 6, 1)
    &&& field_declared(s[3].fields@[0], "ConVars"@, 1, FieldKind::Proto, false, false, 1)
    &&& field_declared(s[3].fields@[0].sub@[0], "ConvarsInner"@, 1, FieldKind::Proto, false, true, 3)
    &&& field_declared(s[3].fields@[0].sub@[0].sub@[0], "name"@, 1, FieldKind::String, true, false, 0)
    &&& field_declared(s[3].fields@[0].sub@[0].sub@[1], "value"@, 2, FieldKind::String, false, false, 0)
    &&& field_declared(s[3].fields@[0].sub@[0].sub@[2], "v3"@, 3, FieldKind::VarInt, true, false, 0)
    &&& message_declared(s[4], "SignOnState"@, 7, 4)
    &&& field_declared(s[4].fields@[0], "signon_state"@, 1, FieldKind::VarInt, false, false, 0)
    &&& field_declared(s[4].fields@[1], "spawn_count"@, 2, FieldKind::VarInt, false, false, 0)
    &&& field_declared(s[4].fields@[2], "num_server_players"@, 3, FieldKind::VarInt, false, false, 0)
    &&& field_declared(s[4].fields@[3], "s5"@, 5, FieldKind::String, true, false, 0)
    &&& message_declared(s[5], "ServerInfo"@, 8, 20)
    &&& field_declared(s[5].fields@[0], "protocol"@, 1, FieldKind::VarInt, false, false, 0)
    &&& field_declared(s[5].fields@[1], "server_restarts"@, 2, FieldKind::VarInt, false, false, 0)
    &&& field_declared(s[5].fields@[2], "is_dedicated"@, 3, FieldKind::VarInt, false, false, 0)
    &&& field_declared(s[5].fields@[3], "is_hltv"@, 5, FieldKind::VarInt, false, false, 0)
    &&& field_declared(s[5].fields@[4], "os"@, 7, FieldKind::VarInt, false, false, 0)
    &&& field_declared(s[5].fields@[5], "map_crc"@, 8, FieldKind::Fixed32, false, false, 0)
    &&& field_declared(s[5].fields@[6], "client_crc"@, 9, FieldKind::Fixed32, false, false, 0)
    &&& field_declared(s[5].fields@[7], "string_table_crc"@, 10, FieldKind::Fixed32, false, false, 0)
    &&& field_declared(s[5].fields@[8], "max_clients"@, 11, FieldKind::VarInt, false, false, 0)
    &&& field_declared(s[5].fields@[9], "max_classes"@, 12, FieldKind::VarInt, false, false, 0)
    &&& field_declared(s[5].fields@[10], "player_slot"@, 13, FieldKind::VarInt, false, false, 0)
    &&& field_declared(s[5].fields@[11], "tick_interval"@, 14, FieldKind::Float32, false, false, 0)
    &&& field_declared(s[5].fields@[12], "game_dir"@, 15, FieldKind::String, false, false, 0)
    &&& field_declared(s[5].fields@[13], "map_name"@, 16, FieldKind::String, false, false, 0)
    &&& field_declared(s[5].fields@[14], "map_group_name"@, 17, FieldKind::String, false, false, 0)
    &&& field_declared(s[5].fields@[15], "sky_name"@, 18, FieldKind::String, false, false, 0)
    &&& field_declared(s[5].fields@[16], "host_name"@, 19, FieldKind::String, false, false, 0)
    &&& field_declared(s[5].fields@[17], "unknown21"@, 21, FieldKind::VarInt, false, false, 0)
    &&& field_declared(s[5].fields@[18], "ugc_map_id"@, 22, FieldKind::VarInt, false, false, 0)
    &&& field_declared(s[5].fields@[19], "v23"@, 23, FieldKind::VarInt, true, false, 0)
    &&& message_declared(s[6], "SendTable"@, 9, 4)
    &&& field_declared(s[6].fields@[0], "is_end"@, 1, FieldKind::VarInt, true, false, 0)
    &&& field_declared(s[6].fields@[1], "net_table_name"@, 2, FieldKind::String, true, false, 0)
    &&& field_declared(s[6].fields@[2], "needs_decoder"@, 3, FieldKind::VarInt, true, false, 0)
    &&& field_declared(s[6].fields@[3], "SendProp"@, 4, FieldKind::Proto, true, true, 9)
    &&& field_declared(s[6].fields@[3].sub@[0], "sendprop_type"@, 1, FieldKind::VarInt, false, false, 0)
    &&& field_declared(s[6].fields@[3].sub@[1], "var_name"@, 2, FieldKind::String, false, false, 0)
    &&& field_declared(s[6].fields@[3].sub@[2], "flags"@, 3, FieldKind::VarInt, false, false, 0)
    &&& field_declared(s[6].fields@[3].sub@[3], "priority"@, 4, FieldKind::VarInt, false, false, 0)
    &&& field_declared(s[6].fields@[3].sub@[4], "dt_name"@, 5, FieldKind::String, true, false, 0)
    &&& field_declared(s[6].fields@[3].sub@[5], "num_elements"@, 6, FieldKind::VarInt, true, false, 0)
    &&& field_declared(s[6].fields@[3].sub@[6], "low_value"@, 7, FieldKind::Fixed32, true, false, 0)
    &&& field_declared(s[6].fields@[3].sub@[7], "high_value"@, 8, FieldKind::Fixed32, true, false, 0)
    &&& field_declared(s[6].fields@[3].sub@[8], "num_bits"@, 9, FieldKind::VarInt, true, false, 0)
    &&& message_declared(s[7], "ClassInfo"@, 10, 1)
    &&& field_declared(s[7].fields@[0], "is_create_on_client"@, 1, FieldKind::VarInt, false, false, 0)
    &&& message_declared(s[8], "CreateStringTable"@, 12, 8)
    &&& field_declared(s[8].fields@[0], "name"@, 1, FieldKind::String, false, false, 0)
    &&& field_declared(s[8].fields@[1], "max_entries"@, 2, FieldKind::VarInt, false, false, 0)
    &&& field_declared(s[8].fields@[2], "num_entries"@, 3, FieldKind::VarInt, false, false, 0)
    &&& field_declared(s[8].fields@[3], "is_user_data_fixed_size"@, 4, FieldKind::VarInt, false, false, 0)
    &&& field_declared(s[8].fields@[4], "user_data_size"@, 5, FieldKind::VarInt, false, false, 0)
    &&& field_declared(s[8].fields@[5], "user_data_size_bits"@, 6, FieldKind::VarInt, false, false, 0)
    &&& field_declared(s[8].fields@[6], "flags"@, 7, FieldKind::VarInt, false, false, 0)
    &&& field_declared(s[8].fields@[7], "string_data"@, 8, FieldKind::Length, false, false, 0)
    &&& message_declared(s[9], "UpdateStringTable"@, 13, 3)
    &&& field_declared(s[9].fields@[0], "table_id"@, 1, FieldKind::VarInt, false, false, 0)
    &&& field_declared(s[9].fields@[1], "num_changed_entries"@, 2, FieldKind::VarInt, false, false, 0)
    &&& field_declared(s[9].fields@[2], "string_data"@, 3, FieldKind::Length, false, false, 0)
    &&& message_declared(s[10], "VoiceInit"@, 14, 3)
    &&& field_declared(s[10].fields@[0], "quality"@, 1, FieldKind::VarInt, false, false, 0)
    &&& field_declared(s[10].fields@[1], "codec"@, 2, FieldKind::String, false, false, 0)
    &&& field_declared(s[10].fields@[2], "version"@, 3, FieldKind::VarInt, false, false, 0)
    &&& message_declared(s[11], "Print"@, 16, 1)
    &&& field_declared(s[11].fields@[0], "text"@, 1, FieldKind::String, false, false, 0)
    &&& message_declared(s[12], "Sounds"@, 17, 2)
    &&& field_declared(s[12].fields@[0], "reliable_sound"@, 1, FieldKind::VarInt, false, false, 0)
    &&& field_declared(s[12].fields@[1], "SoundsInner"@, 2, FieldKind::Proto, false, true, 14)
    &&& field_declared(s[12].fields@[1].sub@[0], "origin_x"@, 1, FieldKind::VarInt, true, false, 0)
    &&& field_declared(s[12].fields@[1].sub@[1], "origin_y"@, 2, FieldKind::VarInt, true, false, 0)
    &&& field_declared(s[12].fields@[1].sub@[2], "origin_z"@, 3, FieldKind::VarInt, true, false, 0)
    &&& field_declared(s[12].fields@[1].sub@[3], "volume"@, 4, FieldKind::VarInt, true, false, 0)
    &&& field_declared(s[12].fields@[1].sub@[4], "sequence_number"@, 6, FieldKind::VarInt, true, false, 0)
    &&& field_declared(s[12].fields@[1].sub@[5], "entity_index"@, 7, FieldKind::VarInt, true, false, 0)
    &&& field_declared(s[12].fields@[1].sub@[6], "channel"@, 8, FieldKind::VarInt, true, false, 0)
    &&& field_declared(s[12].fields@[1].sub@[7], "pitch"@, 9, FieldKind::VarInt, true, false, 0)
    &&& field_declared(s[12].fields@[1].sub@[8], "flags"@, 10, FieldKind::VarInt, true, false, 0)
    &&& field_declared(s[12].fields@[1].sub@[9], "sound_num"@, 11, FieldKind::VarInt, true, false, 0)
    &&& field_declared(s[12].fields@[1].sub@[10], "sound_num_handle"@, 12, FieldKind::Fixed32, true, false, 0)
    &&& field_declared(s[12].fields@[1].sub@[11], "random_seed"@, 14, FieldKind::VarInt, true, false, 0)
    &&& field_declared(s[12].fields@[1].sub@[12], "sound_level"@, 15, FieldKind::VarInt, true, false, 0)
    &&& field_declared(s[12].fields@[1].sub@[13], "is_ambient"@, 17, FieldKind::VarInt, true, false, 0)
    &&& message_declared(s[13], "SetView"@, 18, 1)
    &&& field_declared(s[13].fields@[0], "entity_index"@, 1, FieldKind::VarInt, false, false, 0)
    &&& message_declared(s[14], "BspDecal"@, 21, 5)
    &&& field_declared(s[14].fields@[0], "BspDecalPos"@, 1, FieldKind::Proto, false, false, 3)
    &&& field_declared(s[14].fields@[0].sub@[0], "_x"@, 1, FieldKind::Float32, false, false, 0)
    &&& field_declared(s[14].fields@[0].sub@[1], "_y"@, 2, FieldKind::Float32, false, false, 0)
    &&& field_declared(s[14].fields@[0].sub@[2], "_z"@, 3, FieldKind::Float32, false, false, 0)
    &&& field_declared(s[14].fields@[1], "texture_index"@, 2, FieldKind::VarInt, false, false, 0)
    &&& field_declared(s[14].fields@[2], "entity_index"@, 3, FieldKind::VarInt, false, false, 0)
    &&& field_declared(s[14].fields@[3], "model_index"@, 4, FieldKind::VarInt, false, false, 0)
    &&& field_declared(s[14].fields@[4], "is_low_priority"@, 5, FieldKind::VarInt, false, false, 0)
    &&& message_declared(s[15], "UserMessage"@, 23, 2)
    &&& field_declared(s[15].fields@[0], "msg_type"@, 1, FieldKind::VarInt, false, false, 0)
    &&& field_declared(s[15].fields@[1], "msg_data"@, 2, FieldKind::Length, false, false, 0)
    &&& message_declared(s[16], "GameEvent"@, 25, 2)
    &&& field_declared(s[16].fields@[0], "event_id"@, 2, FieldKind::VarInt, false, false, 0)
    &&& field_declared(s[16].fields@[1], "GameEventKeys"@, 3, FieldKind::Proto, true, true, 7)
    &&& field_declared(s[16].fields@[1].sub@[0], "val_type"@, 1, FieldKind::VarInt, false, false, 0)
    &&& field_declared(s[16].fields@[1].sub@[1], "val_string"@, 2, FieldKind::String, true, false, 0)
    &&& field_declared(s[16].fields@[1].sub@[2], "val_float"@, 3, FieldKind::Float32, true, false, 0)
    &&& field_declared(s[16].fields@[1].sub@[3], "val_long"@, 4, FieldKind::VarInt, true, false, 0)
    &&& field_declared(s[16].fields@[1].sub@[4], "val_short"@, 5, FieldKind::VarInt, true, false, 0)
    &&& field_declared(s[16].fields@[1].sub@[5], "val_byte"@, 6, FieldKind::VarInt, true, false, 0)
    &&& field_declared(s[16].fields@[1].sub@[6], "val_bool"@, 7, FieldKind::VarInt, true, false, 0)
    &&& message_declared(s[17], "PacketEntity"@, 26, 7)
    &&& field_declared(s[17].fields@[0], "max_entries"@, 1, FieldKind::VarInt, false, false, 0)
    &&& field_declared(s[17].fields@[1], "updated_entries"@, 2, FieldKind::VarInt, false, false, 0)
    &&& field_declared(s[17].fields@[2], "is_delta"@, 3, FieldKind::VarInt, false, false, 0)
    &&& field_declared(s[17].fields@[3], "update_baseline"@, 4, FieldKind::VarInt, false, false, 0)
    &&& field_declared(s[17].fields@[4], "baseline"@, 5, FieldKind::VarInt, false, false, 0)
    &&& field_declared(s[17].fields@[5], "delta_from"@, 6, FieldKind::VarInt, true, false, 0)
    &&& field_declared(s[17].fields@[6], "entity_data"@, 7, FieldKind::Length, false, false, 0)
    &&& message_declared(s[18], "TempEntities"@, 27, 3)
    &&& field_declared(s[18].fields@[0], "reliable"@, 1, FieldKind::VarInt, true, false, 0)
    &&& field_declared(s[18].fields@[1], "num_entries"@, 2, FieldKind::VarInt, false, false, 0)
    &&& field_declared(s[18].fields@[2], "entity_data"@, 3, FieldKind::Length, false, false, 0)
    &&& message_declared(s[19], "Prefetch"@, 28, 1)
    &&& field_declared(s[19].fields@[0], "sound_index"@, 1, FieldKind::VarInt, false, false, 0)
    &&& message_declared(s[20], "GameEventList"@, 30, 1)
    &&& field_declared(s[20].fields@[0], "Descriptors"@, 1, FieldKind::Proto, false, true, 3)
    &&& field_declared(s[20].fields@[0].sub@[0], "event_id"@, 1, FieldKind::VarInt, false, false, 0)
    &&& field_declared(s[20].fields@[0].sub@[1], "name"@, 2, FieldKind::String, false, false, 0)
    &&& field_declared(s[20].fields@[0].sub@[2], "DescriptorKeys"@, 3, FieldKind::Proto, true, true, 2)
    &&& field_declared(s[20].fields@[0].sub@[2].sub@[0], "key_type"@, 1, FieldKind::VarInt, false, false, 0)
    &&& field_declared(s[20].fields@[0].sub@[2].sub@[1], "key_name"@, 2, FieldKind::String, false, false, 0)
    &&& message_declared(s[21], "CmdKeyValues"@, 34, 1)
    &&& field_declared(s[21].fields@[0], "key_values"@, 1, FieldKind::Length, false, false, 0)
    &&& message_declared(s[22], "AvatarData"@, 100, 2)
    &&& field_declared(s[22].fields@[0], "account_id"@, 1, FieldKind::VarInt, false, false, 0)
    &&& field_declared(s[22].fields@[1], "rgb_bytes"@, 2, FieldKind::Length, false, false, 0)
}

/// The declared network messages.
pub fn net_message_table() -> (t: MessageTable)
    ensures
        net_messages_declared(t.messages@),
{
    MessageTable {
        messages: vec![
            message("Nop", 0, vec![]),
            message("Tick", 4, vec![
                field("current_tick", 1, FieldKind::VarInt, false, false),
                field("host_computation_time", 4, FieldKind::VarInt, false, false),
                field("host_computation_std_dev", 5, FieldKind::VarInt, false, false),
                field("host_frame_start_time_std_dev", 6, FieldKind::VarInt, false, false),
            ]),
            message("StringCmd", 5, vec![
                field("command", 1, FieldKind::String, false, false),
            ]),
            message("SetConVar", 6, vec![
                proto_field("ConVars", 1, false, false, vec![
                    proto_field("ConvarsInner", 1, false, true, vec![
                        field("name", 1, FieldKind::String, true, false),
                        field("value", 2, FieldKind::String, false, false),
                        field("v3", 3, FieldKind::VarInt, true, false),
                    ]),
                ]),
            ]),
            message("SignOnState", 7, vec![
                field("signon_state", 1, FieldKind::VarInt, false, false),
                field("spawn_count", 2, FieldKind::VarInt, false, false),
                field("num_server_players", 3, FieldKind::VarInt, false, false),
                field("s5", 5, FieldKind::String, true, false),
            ]),
            message("ServerInfo", 8, vec![
                field("protocol", 1, FieldKind::VarInt, false, false),
                field("server_restarts", 2, FieldKind::VarInt, false, false),
                field("is_dedicated", 3, FieldKind::VarInt, false, false),
                field("is_hltv", 5, FieldKind::VarInt, false, false),
                field("os", 7, FieldKind::VarInt, false, false),
                field("map_crc", 8, FieldKind::Fixed32, false, false),
                field("client_crc", 9, FieldKind::Fixed32, false, false),
                field("string_table_crc", 10, FieldKind::Fixed32, false, false),
                field("max_clients", 11, FieldKind::VarInt, false, false),
                field("max_classes", 12, FieldKind::VarInt, false, false),
                field("player_slot", 13, FieldKind::VarInt, false, false),
                field("tick_interval", 14, FieldKind::Float32, false, false),
                field("game_dir", 15, FieldKind::String, false, false),
                field("map_name", 16, FieldKind::String, false, false),
                field("map_group_name", 17, FieldKind::String, false, false),
                field("sky_name", 18, FieldKind::String, false, false),
                field("host_name", 19, FieldKind::String, false, false),
                field("unknown21", 21, FieldKind::VarInt, false, false),
                field("ugc_map_id", 22, FieldKind::VarInt, false, false),
                field("v23", 23, FieldKind::VarInt, true, false),
            ]),
            message("SendTable", 9, vec![
                field("is_end", 1, FieldKind::VarInt, true, false),
                field("net_table_name", 2, FieldKind::String, true, false),
                field("needs_decoder", 3, FieldKind::VarInt, true, false),
                proto_field("SendProp", 4, true, true, vec![
                    field("sendprop_type", 1, FieldKind::VarInt, false, false),
                    field("var_name", 2, FieldKind::String, false, false),
                    field("flags", 3, FieldKind::VarInt, false, false),
                    field("priority", 4, FieldKind::VarInt, false, false),
                    field("dt_name", 5, FieldKind::String, true, false),
                    field("num_elements", 6, FieldKind::VarInt, true, false),
                    field("low_value", 7, FieldKind::Fixed32, true, false),
                    field("high_value", 8, FieldKind::Fixed32, true, false),
                    field("num_bits", 9, FieldKind::VarInt, true, false),
                ]),
            ]),
            message("ClassInfo", 10, vec![
                field("is_create_on_client", 1, FieldKind::VarInt, false, false),
            ]),
            message("CreateStringTable", 12, vec![
                field("name", 1, FieldKind::String, false, false),
                field("max_entries", 2, FieldKind::VarInt, false, false),
                field("num_entries", 3, FieldKind::VarInt, false, false),
                field("is_user_data_fixed_size", 4, FieldKind::VarInt, false, false),
                field("user_data_size", 5, FieldKind::VarInt, false, false),
                field("user_data_size_bits", 6, FieldKind::VarInt, false, false),
                field("flags", 7, FieldKind::VarInt, false, false),
                field("string_data", 8, FieldKind::Length, false, false),
            ]),
            message("UpdateStringTable", 13, vec![
                field("table_id", 1, FieldKind::VarInt, false, false),
                field("num_changed_entries", 2, FieldKind::VarInt, false, false),
                field("string_data", 3, FieldKind::Length, false, false),
            ]),
            message("VoiceInit", 14, vec![
                field("quality", 1, FieldKind::VarInt, false, false),
                field("codec", 2, FieldKind::String, false, false),
                field("version", 3, FieldKind::VarInt, false, false),
            ]),
            message("Print", 16, vec![
                field("text", 1, FieldKind::String, false, false),
            ]),
            message("Sounds", 17, vec![
                field("reliable_sound", 1, FieldKind::VarInt, false, false),
                proto_field("SoundsInner", 2, false, true, vec![
                    field("origin_x", 1, FieldKind::VarInt, true, false),
                    field("origin_y", 2, FieldKind::VarInt, true, false),
                    field("origin_z", 3, FieldKind::VarInt, true, false),
                    field("volume", 4, FieldKind::VarInt, true, false),
                    field("sequence_number", 6, FieldKind::VarInt, true, false),
                    field("entity_index", 7, FieldKind::VarInt, true, false),
                    field("channel", 8, FieldKind::VarInt, true, false),
                    field("pitch", 9, FieldKind::VarInt, true, false),
                    field("flags", 10, FieldKind::VarInt, true, false),
                    field("sound_num", 11, FieldKind::VarInt, true, false),
                    field("sound_num_handle", 12, FieldKind::Fixed32, true, false),
                    field("random_seed", 14, FieldKind::VarInt, true, false),
                    field("sound_level", 15, FieldKind::VarInt, true, false),
                    field("is_ambient", 17, FieldKind::VarInt, true, false),
                ]),
            ]),
            message("SetView", 18, vec![
                field("entity_index", 1, FieldKind::VarInt, false, false),
            ]),
            message("BspDecal", 21, vec![
                proto_field("BspDecalPos", 1, false, false, vec![
                    field("_x", 1, FieldKind::Float32, false, false),
                    field("_y", 2, FieldKind::Float32, false, false),
                    field("_z", 3, FieldKind::Float32, false, false),
                ]),
                field("texture_index", 2, FieldKind::VarInt, false, false),
                field("entity_index", 3, FieldKind::VarInt, false, false),
                field("model_index", 4, FieldKind::VarInt, false, false),
                field("is_low_priority", 5, FieldKind::VarInt, false, false),
            ]),
            message("UserMessage", 23, vec![
                field("msg_type", 1, FieldKind::VarInt, false, false),
                field("msg_data", 2, FieldKind::Length, false, false),
            ]),
            message("GameEvent", 25, vec![
                field("event_id", 2, FieldKind::VarInt, false, false),
                proto_field("GameEventKeys", 3, true, true, vec![
                    field("val_type", 1, FieldKind::VarInt, false, false),
                    field("val_string", 2, FieldKind::String, true, false),
                    field("val_float", 3, FieldKind::Float32, true, false),
                    field("val_long", 4, FieldKind::VarInt, true, false),
                    field("val_short", 5, FieldKind::VarInt, true, false),
                    field("val_byte", 6, FieldKind::VarInt, true, false),
                    field("val_bool", 7, FieldKind::VarInt, true, false),
                ]),
            ]),
            message("PacketEntity", 26, vec![
                field("max_entries", 1, FieldKind::VarInt, false, false),
                field("updated_entries", 2, FieldKind::VarInt, false, false),
                field("is_delta", 3, FieldKind::VarInt, false, false),
                field("update_baseline", 4, FieldKind::VarInt, false, false),
                field("baseline", 5, FieldKind::VarInt, false, false),
                field("delta_from", 6, FieldKind::VarInt, true, false),
                field("entity_data", 7, FieldKind::Length, false, false),
            ]),
            message("TempEntities", 27, vec![
                field("reliable", 1, FieldKind::VarInt, true, false),
                field("num_entries", 2, FieldKind::VarInt, false, false),
                field("entity_data", 3, FieldKind::Length, false, false),
            ]),
            message("Prefetch", 28, vec![
                field("sound_index", 1, FieldKind::VarInt, false, false),
            ]),
            message("GameEventList", 30, vec![
                proto_field("Descriptors", 1, false, true, vec![
                    field("event_id", 1, FieldKind::VarInt, false, false),
                    field("name", 2, FieldKind::String, false, false),
                    proto_field("DescriptorKeys", 3, true, true, vec![
                        field("key_type", 1, FieldKind::VarInt, false, false),
                        field("key_name", 2, FieldKind::String, false, false),
                    ]),
                ]),
            ]),
            message("CmdKeyValues", 34, vec![
                field("key_values", 1, FieldKind::Length, false, false),
            ]),
            message("AvatarData", 100, vec![
                field("account_id", 1, FieldKind::VarInt, false, false),
                field("rgb_bytes", 2, FieldKind::Length, false, false),
            ]),
        ],
    }
}

/// The value of a property index stored at bit `pos`, and the position after
/// it.  In the new scheme a set first bit announces a 3-bit value; otherwise
/// a 7-bit value whose bits 5 and 6 select whether 0, 2, 4 or 7 more bits
/// follow above its low 5 bits.
pub open spec fn prop_index_at(data: Seq<u8>, pos: nat, new_scheme: bool) -> (nat, nat) {
    if new_scheme && bits_at(data, pos, 1) == 1 {
        (bits_at(data, pos + 1, 3), pos + 4)
    } else {
        let p = if new_scheme { pos + 1 } else { pos };
        let r = bits_at(data, p, 7);
        let sel = (r / 32) % 4;
        if sel == 1 {
            (r % 32 + 32 * bits_at(data, p + 7, 2), p + 9)
        } else if sel == 2 {
            (r % 32 + 32 * bits_at(data, p + 7, 4), p + 11)
        } else if sel == 3 {
            (r % 32 + 32 * bits_at(data, p + 7, 7), p + 14)
        } else {
            (r, p + 7)
        }
    }
}

/// A property index is below 4096 and takes at least four bits.
proof fn lemma_prop_index_bound(data: Seq<u8>, pos: nat, new_scheme: bool)
    ensures
        prop_index_at(data, pos, new_scheme).0 < 4096,
        prop_index_at(data, pos, new_scheme).1 >= pos + 4,
{
    lemma2_to64();
    lemma_bits_bound(data, pos + 1, 3);
    let p: nat = if new_scheme { pos + 1 } else { pos };
    lemma_bits_bound(data, p, 7);
    lemma_bits_bound(data, p + 7, 2);
    lemma_bits_bound(data, p + 7, 4);
    lemma_bits_bound(data, p + 7, 7);
}

/// How much the counter of bits read advances while a property index is
/// read from `pos` to `end` (a single-bit read counts twice).
pub open spec fn prop_index_count(pos: nat, end: nat, new_scheme: bool) -> nat {
    if new_scheme {
        (end - pos + 1) as nat
    } else {
        (end - pos) as nat
    }
}

/// `(r & 31) | (x << 5)` puts `x` above the low 5 bits of `r`.
proof fn lemma_low5_or(r: u32, x: u32)
    requires
        x < 128,
    ensures
        (r & 31) | (x << 5) == r % 32 + 32 * x,
        (r & 31) == r % 32,
{
    assert((r & 31) | (x << 5) == r % 32 + 32 * x && (r & 31) == r % 32) by (bit_vector)
        requires
            x < 128,
    ;
}

/// The property index read with the 7-bit scheme starting at the current bit.
fn read_prop_index_bits(buf: &mut BitBuf) -> (r: u32)
    requires
        old(buf).wf(),
        prop_index_at(old(buf).data(), old(buf).position(), false).1 <= old(buf).total_bits(),
    ensures
        final(buf).wf(),
        final(buf).data() == old(buf).data(),
        r as nat == prop_index_at(old(buf).data(), old(buf).position(), false).0,
        final(buf).position() == prop_index_at(old(buf).data(), old(buf).position(), false).1,
        final(buf).bits_read() == old(buf).bits_read() + (final(buf).position() - old(buf).position()),
{
    let ghost d = buf.data();
    let ghost p = buf.position();
    proof {
        lemma2_to64();
        lemma_bits_bound(d, p, 7);
    }
    let rval = buf.read_ubit_long(7);
    let sel = rval & (32 | 64);
    assert(sel == 32 * ((rval / 32) % 4)) by (bit_vector)
        requires
            rval < 128,
            sel == rval & (32u32 | 64u32),
    ;
    if sel == 32 {
        let more = buf.read_ubit_long(2);
        proof {
            lemma_bits_bound(d, p + 7, 2);
            lemma_low5_or(rval, more);
        }
        (rval & 31) | (more << 5)
    } else if sel == 64 {
        let more = buf.read_ubit_long(4);
        proof {
            lemma_bits_bound(d, p + 7, 4);
            lemma_low5_or(rval, more);
        }
        (rval & 31) | (more << 5)
    } else if sel == 96 {
        let more = buf.read_ubit_long(7);
        proof {
            lemma_bits_bound(d, p + 7, 7);
            lemma_low5_or(rval, more);
        }
        (rval & 31) | (more << 5)
    } else {
        rval
    }
}

/// Reads field-path property indices, one delta after the other.
pub struct DeltaBitsReader {
    pub using_new_scheme: bool,
    pub last_prop_idx: i32,
}

impl DeltaBitsReader {
    /// Reads the bit that selects the scheme; no property has been read yet.
    pub fn new(buf: &mut BitBuf) -> (r: Self)
        requires
            old(buf).wf(),
            old(buf).position() + 1 <= old(buf).total_bits(),
        ensures
            final(buf).wf(),
            final(buf).data() == old(buf).data(),
            final(buf).position() == old(buf).position() + 1,
            final(buf).bits_read() == old(buf).bits_read() + 2,
            r.using_new_scheme == (bits_at(old(buf).data(), old(buf).position(), 1) == 1),
            r.last_prop_idx == -1,
    {
        let using_new_scheme = buf.read_one_bit();
        Self { using_new_scheme, last_prop_idx: -1 }
    }

    /// Reads a property index.
    pub fn read_prop_index(&mut self, buf: &mut BitBuf) -> (r: u32)
        requires
            old(buf).wf(),
            prop_index_at(old(buf).data(), old(buf).position(), old(self).using_new_scheme).1 <= old(buf).total_bits(),
        ensures
            *final(self) == *old(self),
            final(buf).wf(),
            final(buf).data() == old(buf).data(),
            r as nat == prop_index_at(old(buf).data(), old(buf).position(), old(self).using_new_scheme).0,
            final(buf).position() == prop_index_at(old(buf).data(), old(buf).position(), old(self).using_new_scheme).1,
            final(buf).bits_read() == old(buf).bits_read() + prop_index_count(
                old(buf).position(),
                final(buf).position(),
                old(self).using_new_scheme,
            ),
    {
        let ghost d = buf.data();
        let ghost p = buf.position();
        if self.using_new_scheme {
            if buf.read_one_bit() {
                proof {
                    lemma_bits_bound(d, p + 1, 3);
                    lemma2_to64();
                }
                return buf.read_ubit_long(3);
            }
        }
        read_prop_index_bits(buf)
    }
}

/// Reading the next field-path property from bit `pos`, the counter of bits
/// read being `cnt` and the last property `last`: the pair (property, bits
/// counted for it), the new position, the new counter and the new last
/// property; `None` where a read would run past the data or a number would
/// overflow.  The property `-1` marks the end of the list.
pub open spec fn next_prop_spec(data: Seq<u8>, pos: nat, cnt: nat, new_scheme: bool, last: int) -> Option<
    ((int, int), nat, nat, int),
> {
    let total = 8 * data.len();
    if new_scheme && pos + 1 > total {
        None
    } else if new_scheme && bits_at(data, pos, 1) == 1 {
        if last + 1 > i32::MAX {
            None
        } else {
            Some(((last + 1, 1), pos + 1, cnt + 2, last + 1))
        }
    } else {
        let p: nat = if new_scheme { pos + 1 } else { pos };
        let c: nat = if new_scheme { cnt + 2 } else { cnt };
        let (idx, end) = prop_index_at(data, p, new_scheme);
        let c2: nat = c + prop_index_count(p, end, new_scheme);
        if end > total || c2 > i32::MAX {
            None
        } else if idx == 4095 {
            Some(((-1, c2 - c), end, c2, last))
        } else if 1 + idx + last > i32::MAX {
            None
        } else {
            Some(((1 + idx + last, c2 - c), end, c2, 1 + idx + last))
        }
    }
}

impl DeltaBitsReader {
    /// Reads the next property: in the new scheme a set bit means the
    /// property after the last one; otherwise an index is read and the
    /// property is the last one plus one plus the index, or `-1` when the
    /// index is 4095.  Returns the property and the bits counted for it.
    pub fn read_next_prop_idx(&mut self, buf: &mut BitBuf) -> (r: (i32, i32))
        requires
            old(buf).wf(),
            old(self).last_prop_idx >= -1,
            next_prop_spec(old(buf).data(), old(buf).position(), old(buf).bits_read(),
                old(self).using_new_scheme, old(self).last_prop_idx as int) is Some,
        ensures
            final(buf).wf(),
            final(buf).data() == old(buf).data(),
            final(self).using_new_scheme == old(self).using_new_scheme,
            final(self).last_prop_idx >= -1,
            ({
                let (v, p, c, l) = next_prop_spec(old(buf).data(), old(buf).position(), old(buf).bits_read(),
                    old(self).using_new_scheme, old(self).last_prop_idx as int)->Some_0;
                &&& r.0 == v.0 && r.1 == v.1
                &&& final(buf).position() == p
                &&& final(buf).bits_read() == c
                &&& final(self).last_prop_idx == l
            }),
    {
        let ghost d = buf.data();
        let ghost p0 = buf.position();
        if self.using_new_scheme {
            if buf.read_one_bit() {
                self.last_prop_idx = self.last_prop_idx + 1;
                return (self.last_prop_idx, 1);
            }
        }
        let ghost p1 = buf.position();
        let ghost c1 = buf.bits_read();
        let start_bit: i32 = buf.get_bits_read() as i32;
        let idx = self.read_prop_index(buf);
        let end_bit: i32 = buf.get_bits_read() as i32;
        let bits_read = end_bit - start_bit;
        if idx == 4095 {
            return (-1, bits_read);
        }
        proof {
            lemma_prop_index_bound(d, p1, self.using_new_scheme);
        }
        let mut prop: i32 = (1 + idx) as i32;
        prop = prop + self.last_prop_idx;
        self.last_prop_idx = prop;
        (prop, bits_read)
    }
}

/// A property read by `next_prop_spec` lies past the old position and within
/// the data.
proof fn lemma_next_prop_advances(data: Seq<u8>, pos: nat, cnt: nat, new_scheme: bool, last: int)
    requires
        next_prop_spec(data, pos, cnt, new_scheme, last) is Some,
        last >= -1,
    ensures
        ({
            let (v, p, c, l) = next_prop_spec(data, pos, cnt, new_scheme, last)->Some_0;
            &&& pos < p <= 8 * data.len()
            &&& v.0 >= -1
            &&& l >= last
            &&& (v.0 != -1 ==> l == v.0)
        }),
{
    let p: nat = if new_scheme { pos + 1 } else { pos };
    lemma_prop_index_bound(data, p, new_scheme);
}

/// The properties of a field path read from bit `pos` until the end marker:
/// the pairs (property, bits counted), the position after the marker and the
/// counter; `None` where `read_next_prop_idx` would fail on the way.
pub open spec fn field_paths_spec(data: Seq<u8>, pos: nat, cnt: nat, new_scheme: bool, last: int) -> Option<
    (Seq<(int, int)>, nat, nat),
>
    decreases 8 * data.len() - pos,
{
    match next_prop_spec(data, pos, cnt, new_scheme, last) {
        None => None,
        Some((v, p, c, l)) => if v.0 == -1 {
            Some((Seq::empty(), p, c))
        } else if p <= pos || p > 8 * data.len() {
            None
        } else {
            match field_paths_spec(data, p, c, new_scheme, l) {
                None => None,
                Some((vs, p2, c2)) => Some((seq![v] + vs, p2, c2)),
            }
        },
    }
}

/// A field path: its scheme bit, then its properties up to the end marker.
pub open spec fn field_paths_read(data: Seq<u8>, pos: nat, cnt: nat) -> Option<(Seq<(int, int)>, nat, nat)> {
    if pos + 1 > 8 * data.len() {
        None
    } else {
        field_paths_spec(data, pos + 1, cnt + 2, bits_at(data, pos, 1) == 1, -1)
    }
}

/// The model of a list of (property, bits) pairs.
pub open spec fn pairs_model(v: Seq<(i32, i32)>) -> Seq<(int, int)> {
    v.map_values(|x: (i32, i32)| (x.0 as int, x.1 as int))
}

/// Reads the properties of a field path, up to its end marker.
pub fn read_field_paths(buf: &mut BitBuf) -> (r: Vec<(i32, i32)>)
    requires
        old(buf).wf(),
        field_paths_read(old(buf).data(), old(buf).position(), old(buf).bits_read()) is Some,
    ensures
        final(buf).wf(),
        final(buf).data() == old(buf).data(),
        ({
            let (vs, p, c) = field_paths_read(old(buf).data(), old(buf).position(), old(buf).bits_read())->Some_0;
            &&& pairs_model(r@) == vs
            &&& final(buf).position() == p
            &&& final(buf).bits_read() == c
        }),
{
    let ghost d = buf.data();
    let ghost target = field_paths_read(d, buf.position(), buf.bits_read());
    let mut reader = DeltaBitsReader::new(buf);
    let mut values: Vec<(i32, i32)> = Vec::new();
    proof {
        let rest = field_paths_spec(d, buf.position(), buf.bits_read(), reader.using_new_scheme, -1)->Some_0;
        assert(pairs_model(values@) + rest.0 =~= rest.0);
    }
    loop
        invariant_except_break
            buf.wf(),
            buf.data() == d,
            reader.last_prop_idx >= -1,
            field_paths_spec(d, buf.position(), buf.bits_read(), reader.using_new_scheme,
                reader.last_prop_idx as int) is Some,
            ({
                let rest = field_paths_spec(d, buf.position(), buf.bits_read(), reader.using_new_scheme,
                    reader.last_prop_idx as int)->Some_0;
                target == Some((pairs_model(values@) + rest.0, rest.1, rest.2))
            }),
        ensures
            buf.wf(),
            buf.data() == d,
            target == Some((pairs_model(values@), buf.position(), buf.bits_read())),
        decreases 8 * d.len() - buf.position(),
    {
        let ghost pos = buf.position();
        let ghost cnt = buf.bits_read();
        let ghost last = reader.last_prop_idx as int;
        let ghost ns = reader.using_new_scheme;
        proof {
            lemma_next_prop_advances(d, pos, cnt, ns, last);
        }
        let value = reader.read_next_prop_idx(buf);
        if value.0 == -1 {
            proof {
                assert(pairs_model(values@) + Seq::<(int, int)>::empty() =~= pairs_model(values@));
            }
            break;
        }
        let ghost before = values@;
        values.push(value);
        proof {
            let rest = field_paths_spec(d, buf.position(), buf.bits_read(), ns, reader.last_prop_idx as int)->Some_0;
            assert(pairs_model(values@) =~= pairs_model(before).push((value.0 as int, value.1 as int)));
            assert(pairs_model(before) + (seq![(value.0 as int, value.1 as int)] + rest.0) =~= pairs_model(values@) + rest.0);
        }
    }
    values
}

/// Reads the field lists of an entity: its field path.
pub fn read_field_lists(buf: &mut BitBuf)
    requires
        old(buf).wf(),
        field_paths_read(old(buf).data(), old(buf).position(), old(buf).bits_read()) is Some,
    ensures
        final(buf).wf(),
        final(buf).data() == old(buf).data(),
        ({
            let (_, p, c) = field_paths_read(old(buf).data(), old(buf).position(), old(buf).bits_read())->Some_0;
            &&& final(buf).position() == p
            &&& final(buf).bits_read() == c
        }),
{
    let _indices = read_field_paths(buf);
}

/// Reading a property index with `get_prop_idx`: the index, the new
/// position, the new counter and the new last index.
pub open spec fn prop_idx_spec(data: Seq<u8>, pos: nat, cnt: nat, new_scheme: bool, last: int) -> Option<
    (int, nat, nat, int),
> {
    let total = 8 * data.len();
    if new_scheme && pos + 1 > total {
        None
    } else if new_scheme && bits_at(data, pos, 1) == 1 {
        if last + 1 > i32::MAX {
            None
        } else {
            Some((last + 1, pos + 1, cnt + 2, last + 1))
        }
    } else {
        let p: nat = if new_scheme { pos + 1 } else { pos };
        let c: nat = if new_scheme { cnt + 2 } else { cnt };
        let (idx, end) = prop_index_at(data, p, new_scheme);
        if end > total {
            None
        } else {
            Some((idx as int, end, c + prop_index_count(p, end, new_scheme), last))
        }
    }
}

/// Reads a property index: in the new scheme a set bit means the index after
/// the last one, which becomes the last one.
pub fn get_prop_idx(bit_buf: &mut BitBuf, last_prop_idx: &mut i32, using_new_scheme: bool) -> (r: i32)
    requires
        old(bit_buf).wf(),
        prop_idx_spec(old(bit_buf).data(), old(bit_buf).position(), old(bit_buf).bits_read(),
            using_new_scheme, *old(last_prop_idx) as int) is Some,
    ensures
        final(bit_buf).wf(),
        final(bit_buf).data() == old(bit_buf).data(),
        ({
            let (v, p, c, l) = prop_idx_spec(old(bit_buf).data(), old(bit_buf).position(), old(bit_buf).bits_read(),
                using_new_scheme, *old(last_prop_idx) as int)->Some_0;
            &&& r == v
            &&& final(bit_buf).position() == p
            &&& final(bit_buf).bits_read() == c
            &&& *final(last_prop_idx) == l
        }),
{
    let ghost d = bit_buf.data();
    if using_new_scheme {
        if bit_buf.read_one_bit() {
            *last_prop_idx = *last_prop_idx + 1;
            return *last_prop_idx;
        }
    }
    let ghost p = bit_buf.position();
    proof {
        lemma_prop_index_bound(d, p, using_new_scheme);
    }
    let reader = DeltaBitsReader { using_new_scheme, last_prop_idx: *last_prop_idx };
    let mut reader = reader;
    let v = reader.read_prop_index(bit_buf);
    v as i32
}

/// How an entity is updated by an entry of a packet of entities.
#[derive(Clone, Copy, PartialEq, Eq, Debug, Structural)]
pub enum UpdateType {
    EnterPVS,
    LeavePVS,
    DeltaEnt,
    PreserveEnt,
    Finished,
    Failed,
}

/// The number of an update type.
pub open spec fn update_type_number(t: UpdateType) -> u8 {
    match t {
        UpdateType::EnterPVS => 0,
        UpdateType::LeavePVS => 1,
        UpdateType::DeltaEnt => 2,
        UpdateType::PreserveEnt => 3,
        UpdateType::Finished => 4,
        UpdateType::Failed => 5,
    }
}

impl From<UpdateType> for u8 {
    fn from(t: UpdateType) -> (r: u8) {
        match t {
            UpdateType::EnterPVS => 0,
            UpdateType::LeavePVS => 1,
            UpdateType::DeltaEnt => 2,
            UpdateType::PreserveEnt => 3,
            UpdateType::Finished => 4,
            UpdateType::Failed => 5,
        }
    }
}

impl vstd::std_specs::convert::FromSpecImpl<UpdateType> for u8 {
    open spec fn obeys_from_spec() -> bool {
        true
    }

    open spec fn from_spec(t: UpdateType) -> u8 {
        update_type_number(t)
    }
}

/// The entity index that stands for "no more old entities".
pub const ENTITY_SENTINEL: i32 = 9999;

/// The state of a reader of the entries of a packet of entities.
pub struct EntityReadInfo {
    pub buf: BitBuf,
    pub update_type: UpdateType,
    pub header_count: i32,
    pub new_ent_idx: i32,
    pub old_ent_idx: i32,
    pub header_base: i32,
    pub update_flags: i32,
    pub from_frame: Option<()>,
}

/// Reading a delta header at bit `pos` with header base `base`: the new
/// entity index, the update flags, the new position and the new counter;
/// `None` where a read would run past the data or the index would not fit
/// an `i32`.  The index is the base plus one plus a variable-length number;
/// then one bit tells whether the entity leaves the view (and one more
/// whether it is deleted), or else one bit whether it enters it.
pub open spec fn delta_header_spec(data: Seq<u8>, pos: nat, cnt: nat, base: int) -> Option<(int, int, nat, nat)> {
    let total = 8 * data.len();
    let n = 6 + ubit_var_extra(bits_at(data, pos, 6));
    let raw = ubit_var_value(data, pos);
    let p = pos + n;
    let c = cnt + n;
    if p + 2 > total || raw > i32::MAX || base + 1 + raw > i32::MAX {
        None
    } else {
        let idx = base + 1 + raw;
        if bits_at(data, p, 1) == 0 {
            let flags = if bits_at(data, p + 1, 1) == 1 { ENTER_PVS as int } else { 0 };
            Some((idx, flags, p + 2, c + 4))
        } else {
            let flags = if bits_at(data, p + 1, 1) == 1 { (LEAVE_PVS + DELETE) as int } else { LEAVE_PVS as int };
            Some((idx, flags, p + 2, c + 4))
        }
    }
}

impl EntityReadInfo {
    /// A reader of `msg`'s entries over `buf`: its header count is the
    /// number of updated entries, no index has been read yet.
    pub fn new(buf: BitBuf, msg: &PacketEntityData) -> (r: Self)
        requires
            msg.updated_entries matches Some(u) && u <= i32::MAX,
        ensures
            r.buf == buf,
            r.update_type == UpdateType::PreserveEnt,
            r.header_count == msg.updated_entries->Some_0,
            r.new_ent_idx == -1,
            r.old_ent_idx == -1,
            r.header_base == -1,
            r.update_flags == 0,
            r.from_frame is None,
    {
        let header_count = match msg.updated_entries {
            Some(u) => u as i32,
            None => 0,
        };
        Self {
            buf,
            update_type: UpdateType::PreserveEnt,
            header_count,
            new_ent_idx: -1,
            old_ent_idx: -1,
            header_base: -1,
            update_flags: 0,
            from_frame: None,
        }
    }

    /// The next old entity: without a frame to compare with, the sentinel.
    pub fn get_next_old_entity(&self, _start_entity: i32) -> (r: i32)
        requires
            self.from_frame is None,
        ensures
            r == ENTITY_SENTINEL,
    {
        ENTITY_SENTINEL
    }
}

/// Reads a delta header: the new entity index becomes the header base, and
/// the update flags are set.
pub fn parse_delta_header(ri: &mut EntityReadInfo)
    requires
        old(ri).buf.wf(),
        delta_header_spec(old(ri).buf.data(), old(ri).buf.position(), old(ri).buf.bits_read(),
            old(ri).header_base as int) is Some,
    ensures
        final(ri).buf.wf(),
        final(ri).buf.data() == old(ri).buf.data(),
        ({
            let (idx, flags, p, c) = delta_header_spec(old(ri).buf.data(), old(ri).buf.position(),
                old(ri).buf.bits_read(), old(ri).header_base as int)->Some_0;
            &&& final(ri).new_ent_idx == idx
            &&& final(ri).header_base == idx
            &&& final(ri).update_flags == flags
            &&& final(ri).buf.position() == p
            &&& final(ri).buf.bits_read() == c
        }),
        final(ri).header_count == old(ri).header_count,
        final(ri).old_ent_idx == old(ri).old_ent_idx,
        final(ri).update_type == old(ri).update_type,
        final(ri).from_frame == old(ri).from_frame,
{
    ri.update_flags = 0;
    let new_idx: i32 = ri.buf.read_ubit_var() as i32;
    ri.new_ent_idx = ri.header_base + 1 + new_idx;
    ri.header_base = ri.new_ent_idx;
    proof {
        lemma2_to64();
        lemma_bits_bound(ri.buf.data(), ri.buf.position(), 1);
        lemma_bits_bound(ri.buf.data(), ri.buf.position() + 1, 1);
    }
    if !ri.buf.read_one_bit() {
        if ri.buf.read_one_bit() {
            let f = ri.update_flags;
            assert(f | 4i32 == 4i32) by (bit_vector)
                requires
                    f == 0i32,
            ;
            ri.update_flags = ri.update_flags | ENTER_PVS;
        }
    } else {
        let f = ri.update_flags;
        assert(f | 1i32 == 1i32 && (1i32 | 2i32) == 3i32) by (bit_vector)
            requires
                f == 0i32,
        ;
        ri.update_flags = ri.update_flags | LEAVE_PVS;
        if ri.buf.read_one_bit() {
            ri.update_flags = ri.update_flags | DELETE;
        }
    }
}

/// Makes a new entity from its class and serial number: its index must be
/// below 2048, and its field lists are read.
pub fn copy_new_entity(ri: &mut EntityReadInfo, _class_idx: u32, _serial_num: u32)
    requires
        old(ri).buf.wf(),
        0 <= old(ri).new_ent_idx < 2048,
        field_paths_read(old(ri).buf.data(), old(ri).buf.position(), old(ri).buf.bits_read()) is Some,
    ensures
        final(ri).buf.wf(),
        final(ri).buf.data() == old(ri).buf.data(),
        ({
            let (_, p, c) = field_paths_read(old(ri).buf.data(), old(ri).buf.position(), old(ri).buf.bits_read())->Some_0;
            &&& final(ri).buf.position() == p
            &&& final(ri).buf.bits_read() == c
        }),
        final(ri).header_count == old(ri).header_count,
        final(ri).new_ent_idx == old(ri).new_ent_idx,
        final(ri).header_base == old(ri).header_base,
        final(ri).update_flags == old(ri).update_flags,
        final(ri).old_ent_idx == old(ri).old_ent_idx,
        final(ri).update_type == old(ri).update_type,
        final(ri).from_frame == old(ri).from_frame,
{
    read_field_lists(&mut ri.buf);
    let _start_bit = ri.buf.get_bits_read();
}

/// A packet of entities, as the network message that carries it.
#[derive(Debug)]
pub struct PacketEntityData {
    pub max_entries: Option<u64>,
    pub updated_entries: Option<u64>,
    pub is_delta: Option<u64>,
    pub update_baseline: Option<u64>,
    pub baseline: Option<u64>,
    pub delta_from: Option<u64>,
    pub entity_data: Option<Vec<u8>>,
}

/// The largest `r` with `2^r <= x`: the integer base-2 logarithm.
pub open spec fn floor_log2(x: nat) -> nat {
    choose|r: nat| #[trigger] pow2(r) <= x < pow2(r + 1)
}

/// The integer logarithm is the only `r` with `2^r <= x < 2^(r+1)`.
proof fn lemma_floor_log2(x: nat, r: nat)
    requires
        pow2(r) <= x < pow2(r + 1),
    ensures
        floor_log2(x) == r,
{
    let k = floor_log2(x);
    assert(pow2(k) <= x < pow2(k + 1));
    if k < r {
        if k + 1 < r {
            lemma_pow2_strictly_increases(k + 1, r);
        }
    } else if r < k {
        if r + 1 < k {
            lemma_pow2_strictly_increases(r + 1, k);
        }
    }
}

/// `IntLog::log2` of the `ilog` crate on a `u64`: the largest integer that
/// is not above the base-2 logarithm of `x`, that is `r` with
/// `2^r <= x < 2^(r+1)`.  It is not defined on 0.
#[verifier::external_body]
fn int_log2(x: u64) -> (r: usize)
    requires
        x > 0,
    ensures
        pow2(r as nat) <= x < pow2(r as nat + 1),
{
    IntLog::log2(x)
}

/// The number of bits of a server class index, for `max_server_classes`
/// classes.
pub open spec fn class_bits_of(max_server_classes: u64) -> nat {
    floor_log2(max_server_classes as nat) + 1
}

/// The kind of update that the flags of a delta header announce.
pub open spec fn update_type_of(flags: int) -> UpdateType {
    if flags == ENTER_PVS {
        UpdateType::EnterPVS
    } else if flags == LEAVE_PVS || flags == LEAVE_PVS + DELETE {
        UpdateType::LeavePVS
    } else {
        UpdateType::DeltaEnt
    }
}

/// Reading one entry at bit `pos` with header base `base`: its update type,
/// the new position, the new counter and the new header base; `None` where
/// the reading fails.  An entity entering the view has an index of at most
/// the sentinel and below 2048, a class index of `class_bits` bits, a 10-bit
/// serial number and a field path; one leaving it needs a packet that is not
/// a delta.
pub open spec fn entity_step(data: Seq<u8>, pos: nat, cnt: nat, base: int, class_bits: nat, is_delta: Option<u64>) -> Option<
    (UpdateType, nat, nat, int),
> {
    match delta_header_spec(data, pos, cnt, base) {
        None => None,
        Some((idx, flags, p, c)) => if idx > ENTITY_SENTINEL {
            None
        } else {
            match update_type_of(flags) {
                UpdateType::EnterPVS => if class_bits > 32 || p + class_bits + 10 > 8 * data.len() || idx < 0 || idx >= 2048 {
                    None
                } else {
                    match field_paths_read(data, p + class_bits + 10, c + class_bits + 10) {
                        None => None,
                        Some((_, p2, c2)) => Some((UpdateType::EnterPVS, p2, c2, idx)),
                    }
                },
                UpdateType::LeavePVS => if is_delta == Some(0u64) {
                    Some((UpdateType::LeavePVS, p, c, idx))
                } else {
                    None
                },
                t => Some((t, p, c, idx)),
            }
        },
    }
}

/// Reading `n` entries, `count` headers being left: their update types.
pub open spec fn entity_steps(
    data: Seq<u8>,
    pos: nat,
    cnt: nat,
    count: int,
    base: int,
    class_bits: nat,
    is_delta: Option<u64>,
    n: nat,
) -> Option<Seq<UpdateType>>
    decreases n,
{
    if n == 0 {
        Some(Seq::empty())
    } else if count - 1 < 0 {
        None
    } else {
        match entity_step(data, pos, cnt, base, class_bits, is_delta) {
            None => None,
            Some((t, p, c, b)) => match entity_steps(data, p, c, count - 1, b, class_bits, is_delta, (n - 1) as nat) {
                None => None,
                Some(ts) => Some(seq![t] + ts),
            },
        }
    }
}

/// The number of entries that `parse` reads.
pub const DEBUG_COUNTS: usize = 3;

/// Parsing a packet of entities: the update types of its first three
/// entries; `None` where the parsing fails.
pub open spec fn entity_parse_spec(
    entity_data: Option<Seq<u8>>,
    updated_entries: Option<u64>,
    is_delta: Option<u64>,
    max_server_classes: u64,
) -> Option<Seq<UpdateType>> {
    if max_server_classes == 0 {
        None
    } else {
        match (entity_data, updated_entries) {
            (Some(d), Some(u)) => if d.len() < 4 || d.len() > usize::MAX / 16 || u > i32::MAX {
                None
            } else {
                entity_steps(d, 0, 0, u as int, -1, class_bits_of(max_server_classes), is_delta, DEBUG_COUNTS as nat)
            },
            _ => None,
        }
    }
}

/// An entry of a parsed packet of entities.
#[derive(Debug)]
pub struct ParsedPacketDataInner {
    pub new_entity_idx: i32,
    pub update_type: UpdateType,
    pub field_indices: Vec<(i32, usize)>,
}

/// The model of an entry: its index, its update type and its field indices.
pub type EntryModel = (i32, UpdateType, Seq<(i32, usize)>);

/// The entries of a parsed packet of entities.
#[derive(Debug)]
pub struct ParsedPacketData {
    pub data: Vec<ParsedPacketDataInner>,
}

impl View for ParsedPacketData {
    type V = Seq<EntryModel>;

    open spec fn view(&self) -> Seq<EntryModel> {
        entries_view(self.data@)
    }
}

/// The models of a list of entries.
pub open spec fn entries_view(v: Seq<ParsedPacketDataInner>) -> Seq<EntryModel> {
    Seq::new(v.len(), |i: int| (v[i].new_entity_idx, v[i].update_type, v[i].field_indices@))
}

/// The entries that `parse` returns for the given update types: no index
/// and no field index is filled in.
pub open spec fn entries_of(types: Seq<UpdateType>) -> Seq<EntryModel> {
    types.map_values(|t: UpdateType| (-1i32, t, Seq::<(i32, usize)>::empty()))
}

/// Parsing the entries of a packet of entities.
pub trait PacketEntityDataParse {
    /// Whether the packet can be parsed with the given number of server
    /// classes.
    spec fn parse_defined(&self, max_server_classes: u64) -> bool;

    /// The entries that parsing gives.
    spec fn parse_result(&self, max_server_classes: u64) -> Seq<EntryModel>;

    /// Parses the entries.
    fn parse(&self, max_server_classes: u64) -> (r: ParsedPacketData)
        requires
            self.parse_defined(max_server_classes),
        ensures
            r@ == self.parse_result(max_server_classes),
    ;
}

impl PacketEntityData {
    /// The update types that parsing gives, if it succeeds.
    pub open spec fn parse_spec(&self, max_server_classes: u64) -> Option<Seq<UpdateType>> {
        entity_parse_spec(
            match self.entity_data {
                Some(d) => Some(d@),
                None => None,
            },
            self.updated_entries,
            self.is_delta,
            max_server_classes,
        )
    }
}

/// The update type announced by the flags of a delta header.
fn update_type_from_flags(flags: i32) -> (t: UpdateType)
    requires
        flags == 0 || flags == LEAVE_PVS || flags == LEAVE_PVS + DELETE || flags == ENTER_PVS,
    ensures
        t == update_type_of(flags as int),
{
    assert((flags & 4i32 != 0i32) == (flags == 4i32) && (flags & 1i32 != 0i32) == (flags == 1i32 || flags == 3i32))
        by (bit_vector)
        requires
            flags == 0i32 || flags == 1i32 || flags == 3i32 || flags == 4i32,
    ;
    if flags & ENTER_PVS != 0 {
        UpdateType::EnterPVS
    } else if flags & LEAVE_PVS != 0 {
        UpdateType::LeavePVS
    } else {
        UpdateType::DeltaEnt
    }
}

impl PacketEntityDataParse for PacketEntityData {
    open spec fn parse_defined(&self, max_server_classes: u64) -> bool {
        self.parse_spec(max_server_classes) is Some
    }

    open spec fn parse_result(&self, max_server_classes: u64) -> Seq<EntryModel> {
        entries_of(self.parse_spec(max_server_classes)->Some_0)
    }

    /// Reads the first three entries: for each its delta header, and for an
    /// entity that enters the view its class, its serial number and its
    /// field path.
    fn parse(&self, max_server_classes: u64) -> (r: ParsedPacketData) {
        let ghost target = self.parse_spec(max_server_classes)->Some_0;
        let ghost d = self.entity_data->Some_0@;
        let ghost bits = class_bits_of(max_server_classes);
        let log = int_log2(max_server_classes);
        proof {
            lemma_floor_log2(max_server_classes as nat, log as nat);
            if log >= 64 {
                lemma2_to64();
                if log > 64 {
                    lemma_pow2_strictly_increases(64, log as nat);
                }
            }
        }
        let server_class_bits = log + 1;
        let mut data: Vec<ParsedPacketDataInner> = Vec::new();
        let bytes = self.entity_data.as_ref().unwrap().clone();
        proof {
            assert(bytes@ =~= d);
        }
        let bit_buf = BitBuf::new(bytes);
        let mut ent_ri = EntityReadInfo::new(bit_buf, self);
        let mut update_type = ent_ri.update_type;
        let old_entity_idx = ent_ri.old_ent_idx;
        let old_entity_idx = ent_ri.get_next_old_entity(old_entity_idx);
        let new_entity_idx: i32 = -1;
        let mut debug_it: usize = 1;
        let ghost mut done: Seq<UpdateType> = Seq::empty();
        proof {
            assert(done + target =~= target);
            assert(entries_view(data@) =~= entries_of(done));
        }
        loop
            invariant_except_break
                1 <= debug_it <= DEBUG_COUNTS,
                ent_ri.buf.wf(),
                ent_ri.buf.data() == d,
                ent_ri.from_frame is None,
                old_entity_idx == ENTITY_SENTINEL,
                new_entity_idx == -1,
                server_class_bits == bits,
                bits <= 64,
                update_type != UpdateType::Finished,
                entries_view(data@) == entries_of(done),
                entity_steps(d, ent_ri.buf.position(), ent_ri.buf.bits_read(), ent_ri.header_count as int,
                    ent_ri.header_base as int, bits, self.is_delta, (DEBUG_COUNTS + 1 - debug_it) as nat) matches Some(rest)
                    && target == done + rest,
            ensures
                entries_view(data@) == entries_of(target),
            decreases DEBUG_COUNTS - debug_it,
        {
            if update_type == UpdateType::Finished {
                break;
            }
            let ghost n = (DEBUG_COUNTS + 1 - debug_it) as nat;
            let ghost rest = entity_steps(d, ent_ri.buf.position(), ent_ri.buf.bits_read(), ent_ri.header_count as int,
                ent_ri.header_base as int, bits, self.is_delta, n)->Some_0;
            ent_ri.header_count = ent_ri.header_count - 1;
            parse_delta_header(&mut ent_ri);
            update_type = update_type_from_flags(ent_ri.update_flags);
            match update_type {
                UpdateType::EnterPVS => {
                    let class_idx = ent_ri.buf.read_ubit_long(server_class_bits as u8);
                    let serial_num = ent_ri.buf.read_ubit_long(10);
                    ent_ri.old_ent_idx = old_entity_idx;
                    copy_new_entity(&mut ent_ri, class_idx, serial_num);
                },
                _ => {},
            }
            let ghost before = data@;
            data.push(ParsedPacketDataInner { new_entity_idx, update_type, field_indices: Vec::new() });
            proof {
                let old_done = done;
                done = done.push(update_type);
                let rest2 = entity_steps(d, ent_ri.buf.position(), ent_ri.buf.bits_read(), ent_ri.header_count as int,
                    ent_ri.header_base as int, bits, self.is_delta, (n - 1) as nat)->Some_0;
                assert(rest == seq![update_type] + rest2);
                assert(old_done + rest =~= done + rest2);
                assert(entries_view(before).len() == before.len());
                assert forall|k: int| 0 <= k < data@.len() implies #[trigger] entries_view(data@)[k] == entries_of(done)[k] by {
                    if k < before.len() {
                        assert(data@[k] == before[k]);
                        assert(entries_view(before)[k] == entries_of(old_done)[k]);
                    }
                }
                assert(entries_of(old_done).len() == old_done.len());
                assert(entries_of(done).len() == done.len());
                assert(entries_view(data@) =~= entries_of(done));
                if debug_it == DEBUG_COUNTS {
                    assert(done + rest2 =~= done);
                }
            }
            if debug_it == DEBUG_COUNTS {
                break;
            } else {
                debug_it = debug_it + 1;
            }
        }
        ParsedPacketData { data }
    }
}

/// Reading `n` entries gives `n` update types, none of which is
/// `PreserveEnt`, `Finished` or `Failed`.
proof fn lemma_entity_steps(
    data: Seq<u8>,
    pos: nat,
    cnt: nat,
    count: int,
    base: int,
    class_bits: nat,
    is_delta: Option<u64>,
    n: nat,
)
    requires
        entity_steps(data, pos, cnt, count, base, class_bits, is_delta, n) is Some,
    ensures
        ({
            let ts = entity_steps(data, pos, cnt, count, base, class_bits, is_delta, n)->Some_0;
            &&& ts.len() == n
            &&& forall|i: int| 0 <= i < n ==> (#[trigger] ts[i] == UpdateType::EnterPVS || ts[i] == UpdateType::LeavePVS
                || ts[i] == UpdateType::DeltaEnt)
        }),
    decreases n,
{
    if n > 0 {
        let (t, p, c, b) = entity_step(data, pos, cnt, base, class_bits, is_delta)->Some_0;
        lemma_entity_steps(data, p, c, count - 1, b, class_bits, is_delta, (n - 1) as nat);
        let rest = entity_steps(data, p, c, count - 1, b, class_bits, is_delta, (n - 1) as nat)->Some_0;
        let ts = entity_steps(data, pos, cnt, count, base, class_bits, is_delta, n)->Some_0;
        assert(ts == seq![t] + rest);
        assert forall|i: int| 0 <= i < n implies (#[trigger] ts[i] == UpdateType::EnterPVS || ts[i]
            == UpdateType::LeavePVS || ts[i] == UpdateType::DeltaEnt) by {
            if i > 0 {
                assert(ts[i] == rest[i - 1]);
            }
        }
    }
}

/// Parsing a packet of entities gives exactly three entries, each entering,
/// leaving or updating an entity, with no index (`-1`) and no field indices.
pub proof fn law_parse_gives_three_entries(msg: PacketEntityData, max_server_classes: u64)
    requires
        msg.parse_defined(max_server_classes),
    ensures
        msg.parse_result(max_server_classes).len() == DEBUG_COUNTS,
        forall|i: int| 0 <= i < DEBUG_COUNTS ==> {
            let e = #[trigger] msg.parse_result(max_server_classes)[i];
            &&& e.0 == -1
            &&& e.2.len() == 0
            &&& (e.1 == UpdateType::EnterPVS || e.1 == UpdateType::LeavePVS || e.1 == UpdateType::DeltaEnt)
        },
{
    let d = msg.entity_data->Some_0@;
    let u = msg.updated_entries->Some_0;
    lemma_entity_steps(d, 0, 0, u as int, -1, class_bits_of(max_server_classes), msg.is_delta, DEBUG_COUNTS as nat);
}

/// The id of the `PacketEntity` network message.
pub const PACKET_ENTITY_ID: u64 = 26;

impl PacketEntityData {
    /// The packet of entities that a decoded `PacketEntity` message holds.
    pub fn from_message(m: &DecodedMessage) -> (r: Self)
        ensures
            r.max_entries == varint_of(named_value(m@.fields, "max_entries"@)),
            r.updated_entries == varint_of(named_value(m@.fields, "updated_entries"@)),
            r.is_delta == varint_of(named_value(m@.fields, "is_delta"@)),
            r.update_baseline == varint_of(named_value(m@.fields, "update_baseline"@)),
            r.baseline == varint_of(named_value(m@.fields, "baseline"@)),
            r.delta_from == varint_of(named_value(m@.fields, "delta_from"@)),
            match bytes_of(named_value(m@.fields, "entity_data"@)) {
                Some(d) => r.entity_data matches Some(x) && x@ == d,
                None => r.entity_data is None,
            },
    {
        let entity_data = match named_bytes(&m.fields, "entity_data") {
            Some(d) => {
                let c = d.clone();
                proof {
                    assert(c@ =~= d@);
                }
                Some(c)
            },
            None => None,
        };
        PacketEntityData {
            max_entries: named_varint(&m.fields, "max_entries"),
            updated_entries: named_varint(&m.fields, "updated_entries"),
            is_delta: named_varint(&m.fields, "is_delta"),
            update_baseline: named_varint(&m.fields, "update_baseline"),
            baseline: named_varint(&m.fields, "baseline"),
            delta_from: named_varint(&m.fields, "delta_from"),
            entity_data,
        }
    }
}

/// How a property index is laid out from bit `pos`.  In the new scheme a set
/// first bit is followed by the index in 3 bits.  Otherwise (after that clear
/// bit in the new scheme) come the 5 low bits of the index and a 2-bit
/// selector: selector 0 ends the index there (7 bits in all); selectors 1, 2
/// and 3 are followed by exactly 2, 4 and 7 more bits, which are the index's
/// bits from bit 5 up.
pub proof fn law_prop_index_layout(data: Seq<u8>, pos: nat, new_scheme: bool)
    ensures
        new_scheme && bits_at(data, pos, 1) == 1 ==> prop_index_at(data, pos, new_scheme) == (bits_at(data, pos + 1, 3), pos + 4),
        !(new_scheme && bits_at(data, pos, 1) == 1) ==> {
            let p: nat = if new_scheme { pos + 1 } else { pos };
            let low = bits_at(data, p, 5);
            let sel = bits_at(data, p + 5, 2);
            &&& sel == 0 ==> prop_index_at(data, pos, new_scheme) == (low, p + 7)
            &&& sel == 1 ==> prop_index_at(data, pos, new_scheme) == (low + 32 * bits_at(data, p + 7, 2), p + 9)
            &&& sel == 2 ==> prop_index_at(data, pos, new_scheme) == (low + 32 * bits_at(data, p + 7, 4), p + 11)
            &&& sel == 3 ==> prop_index_at(data, pos, new_scheme) == (low + 32 * bits_at(data, p + 7, 7), p + 14)
        },
{
    lemma2_to64();
    let p: nat = if new_scheme { pos + 1 } else { pos };
    lemma_bits_prefix(data, p, 7, 5);
    lemma_bits_shift(data, p, 7, 5);
    lemma_bits_bound(data, p + 5, 2);
    let r = bits_at(data, p, 7);
    assert(r / 32 == bits_at(data, p + 5, 2));
    assert(r % 32 == bits_at(data, p, 5));
    assert((r / 32) % 4 == bits_at(data, p + 5, 2));
}

} // verus!
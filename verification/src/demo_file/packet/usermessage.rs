use vstd::prelude::*;
use crate::message_schema::{
    MessageSpec, MessageTable, FieldKind, field, proto_field, message, message_declared, field_declared,
};

verus! {

/// Whether `s` holds the declared user messages, in order: for each its
/// name, id and fields (name, number, kind, optional, repeated, embedded fields).
pub open spec fn user_messages_declared(s: Seq<MessageSpec>) -> bool {
    &&& s.len() == 13
    &&& message_declared(s[0], "SayText"@, 5, 4)
    &&& field_declared(s[0].fields@[0], "entity_idx"@, 1, FieldKind::VarInt, true, false, 0)
    &&& field_declared(s[0].fields@[1], "text"@, 2, FieldKind::String, false, false, 0)
    &&& field_declared(s[0].fields@[2], "is_chat"@, 3, FieldKind::VarInt, true, false, 0)
    &&& field_declared(s[0].fields@[3], "is_text_all_chat"@, 4, FieldKind::VarInt, true, false, 0)
    &&& message_declared(s[1], "SayText2"@, 6, 5)
    &&& field_declared(s[1].fields@[0], "ent_sidx"@, 1, FieldKind::VarInt, false, false, 0)
    &&& field_declared(s[1].fields@[1], "chat"@, 2, FieldKind::VarInt, false, false, 0)
    &&& field_declared(s[1].fields@[2], "msg_name"@, 3, FieldKind::String, false, false, 0)
    &&& field_declared(s[1].fields@[3], "params"@, 4, FieldKind::String, false, true, 0)
    &&& field_declared(s[1].fields@[4], "text_all_chat"@, 5, FieldKind::VarInt, false, false, 0)
    &&& message_declared(s[2], "TextMsg"@, 7, 2)
    &&& field_declared(s[2].fields@[0], "msg_dst"@, 1, FieldKind::VarInt, false, false, 0)
    &&& field_declared(s[2].fields@[1], "params"@, 3, FieldKind::String, false, true, 0)
    &&& message_declared(s[3], "Shake"@, 12, 4)
    &&& field_declared(s[3].fields@[0], "command"@, 1, FieldKind::VarInt, false, false, 0)
    &&& field_declared(s[3].fields@[1], "local_amplitude"@, 2, FieldKind::Float32, false, false, 0)
    &&& field_declared(s[3].fields@[2], "frequency"@, 3, FieldKind::Float32, false, false, 0)
    &&& field_declared(s[3].fields@[3], "duration"@, 4, FieldKind::Float32, false, false, 0)
    &&& message_declared(s[4], "Damage"@, 21, 3)
    &&& field_declared(s[4].fields@[0], "amount"@, 1, FieldKind::VarInt, false, false, 0)
    &&& field_declared(s[4].fields@[1], "InflictorWorldPos"@, 2, FieldKind::Proto, false, false, 3)
    &&& field_declared(s[4].fields@[1].sub@[0], "_x"@, 1, FieldKind::Float32, false, false, 0)
    &&& field_declared(s[4].fields@[1].sub@[1], "_y"@, 2, FieldKind::Float32, false, false, 0)
    &&& field_declared(s[4].fields@[1].sub@[2], "_z"@, 3, FieldKind::Float32, false, false, 0)
    &&& field_declared(s[4].fields@[2], "victim_entity_index"@, 3, FieldKind::VarInt, false, false, 0)
    &&& message_declared(s[5], "ProcessSpottedEntityUpdate"@, 25, 2)
    &&& field_declared(s[5].fields@[0], "new_update"@, 1, FieldKind::VarInt, false, false, 0)
    &&& field_declared(s[5].fields@[1], "SpottedEntityUpdates"@, 2, FieldKind::Proto, true, true, 9)
    &&& field_declared(s[5].fields@[1].sub@[0], "entity_idx"@, 1, FieldKind::VarInt, false, false, 0)
    &&& field_declared(s[5].fields@[1].sub@[1], "class_id"@, 2, FieldKind::VarInt, false, false, 0)
    &&& field_declared(s[5].fields@[1].sub@[2], "origin_x"@, 3, FieldKind::VarInt, false, false, 0)
    &&& field_declared(s[5].fields@[1].sub@[3], "origin_y"@, 4, FieldKind::VarInt, false, false, 0)
    &&& field_declared(s[5].fields@[1].sub@[4], "origin_z"@, 5, FieldKind::VarInt, false, false, 0)
    &&& field_declared(s[5].fields@[1].sub@[5], "angle_y"@, 6, FieldKind::VarInt, false, false, 0)
    &&& field_declared(s[5].fields@[1].sub@[6], "defuser"@, 7, FieldKind::VarInt, false, false, 0)
    &&& field_declared(s[5].fields@[1].sub@[7], "player_has_defuser"@, 8, FieldKind::VarInt, true, false, 0)
    &&& field_declared(s[5].fields@[1].sub@[8], "player_has_c4"@, 9, FieldKind::VarInt, true, false, 0)
    &&& message_declared(s[6], "PlayerStatsUpdate"@, 36, 4)
    &&& field_declared(s[6].fields@[0], "version"@, 1, FieldKind::VarInt, false, false, 0)
    &&& field_declared(s[6].fields@[1], "Stats"@, 4, FieldKind::Proto, false, true, 2)
    &&& field_declared(s[6].fields@[1].sub@[0], "idx"@, 1, FieldKind::VarInt, false, false, 0)
    &&& field_declared(s[6].fields@[1].sub@[1], "delta"@, 2, FieldKind::VarInt, false, false, 0)
    &&& field_declared(s[6].fields@[2], "user_id"@, 5, FieldKind::VarInt, false, false, 0)
    &&& field_declared(s[6].fields@[3], "crc"@, 6, FieldKind::VarInt, false, false, 0)
    &&& message_declared(s[7], "WarmupEnded"@, 38, 0)
    &&& message_declared(s[8], "VoteStart"@, 46, 6)
    &&& field_declared(s[8].fields@[0], "team"@, 1, FieldKind::VarInt, false, false, 0)
    &&& field_declared(s[8].fields@[1], "entity_idx"@, 2, FieldKind::VarInt, false, false, 0)
    &&& field_declared(s[8].fields@[2], "vote_type"@, 3, FieldKind::VarInt, false, false, 0)
    &&& field_declared(s[8].fields@[3], "display_string"@, 4, FieldKind::String, false, false, 0)
    &&& field_declared(s[8].fields@[4], "details_string"@, 5, FieldKind::String, false, false, 0)
    &&& field_declared(s[8].fields@[5], "other_team_string"@, 6, FieldKind::String, false, false, 0)
    &&& message_declared(s[9], "VotePass"@, 47, 4)
    &&& field_declared(s[9].fields@[0], "team"@, 1, FieldKind::VarInt, false, false, 0)
    &&& field_declared(s[9].fields@[1], "vote_type"@, 2, FieldKind::VarInt, false, false, 0)
    &&& field_declared(s[9].fields@[2], "display_string"@, 3, FieldKind::String, false, false, 0)
    &&& field_declared(s[9].fields@[3], "details_string"@, 4, FieldKind::String, false, false, 0)
    &&& message_declared(s[10], "ServerRankRevealAll"@, 50, 0)
    &&& message_declared(s[11], "P69"@, 69, 6)
    &&& field_declared(s[11].fields@[0], "guess_player_idx"@, 1, FieldKind::VarInt, false, false, 0)
    &&& field_declared(s[11].fields@[1], "guess_pos_x"@, 2, FieldKind::Float32, false, false, 0)
    &&& field_declared(s[11].fields@[2], "guess_pos_y"@, 3, FieldKind::Float32, false, false, 0)
    &&& field_declared(s[11].fields@[3], "guess_pos_z"@, 4, FieldKind::Float32, false, false, 0)
    &&& field_declared(s[11].fields@[4], "guess_weapon_action"@, 5, FieldKind::String, false, false, 0)
    &&& field_declared(s[11].fields@[5], "guess_game_time"@, 6, FieldKind::Float32, false, false, 0)
    &&& message_declared(s[12], "P75"@, 75, 1)
    &&& field_declared(s[12].fields@[0], "P75_P1"@, 1, FieldKind::Proto, false, true, 8)
    &&& field_declared(s[12].fields@[0].sub@[0], "v1"@, 1, FieldKind::VarInt, false, false, 0)
    &&& field_declared(s[12].fields@[0].sub@[1], "v2"@, 2, FieldKind::VarInt, false, false, 0)
    &&& field_declared(s[12].fields@[0].sub@[2], "s3"@, 3, FieldKind::String, false, false, 0)
    &&& field_declared(s[12].fields@[0].sub@[3], "v4"@, 4, FieldKind::VarInt, false, false, 0)
    &&& field_declared(s[12].fields@[0].sub@[4], "P75_P1_P5"@, 5, FieldKind::Proto, false, false, 3)
    &&& field_declared(s[12].fields@[0].sub@[4].sub@[0], "v1"@, 1, FieldKind::VarInt, false, false, 0)
    &&& field_declared(s[12].fields@[0].sub@[4].sub@[1], "f2"@, 2, FieldKind::Float32, false, false, 0)
    &&& field_declared(s[12].fields@[0].sub@[4].sub@[2], "v3"@, 3, FieldKind::VarInt, false, false, 0)
    &&& field_declared(s[12].fields@[0].sub@[5], "P75_P1_P6"@, 6, FieldKind::Proto, false, true, 12)
    &&& field_declared(s[12].fields@[0].sub@[5].sub@[0], "v2"@, 2, FieldKind::VarInt, false, false, 0)
    &&& field_declared(s[12].fields@[0].sub@[5].sub@[1], "v3"@, 3, FieldKind::VarInt, false, false, 0)
    &&& field_declared(s[12].fields@[0].sub@[5].sub@[2], "v4"@, 4, FieldKind::VarInt, true, false, 0)
    &&& field_declared(s[12].fields@[0].sub@[5].sub@[3], "v5"@, 5, FieldKind::VarInt, true, false, 0)
    &&& field_declared(s[12].fields@[0].sub@[5].sub@[4], "v6"@, 6, FieldKind::VarInt, true, false, 0)
    &&& field_declared(s[12].fields@[0].sub@[5].sub@[5], "v7"@, 7, FieldKind::VarInt, true, false, 0)
    &&& field_declared(s[12].fields@[0].sub@[5].sub@[6], "v8"@, 8, FieldKind::VarInt, true, false, 0)
    &&& field_declared(s[12].fields@[0].sub@[5].sub@[7], "v9"@, 9, FieldKind::VarInt, true, false, 0)
    &&& field_declared(s[12].fields@[0].sub@[5].sub@[8], "v10"@, 10, FieldKind::VarInt, true, false, 0)
    &&& field_declared(s[12].fields@[0].sub@[5].sub@[9], "s11"@, 11, FieldKind::String, true, false, 0)
    &&& field_declared(s[12].fields@[0].sub@[5].sub@[10], "P75_P1_P6_P12"@, 12, FieldKind::Proto, true, true, 5)
    &&& field_declared(s[12].fields@[0].sub@[5].sub@[10].sub@[0], "v1"@, 1, FieldKind::VarInt, false, false, 0)
    &&& field_declared(s[12].fields@[0].sub@[5].sub@[10].sub@[1], "v2"@, 2, FieldKind::VarInt, false, false, 0)
    &&& field_declared(s[12].fields@[0].sub@[5].sub@[10].sub@[2], "f3"@, 3, FieldKind::Fixed32, true, false, 0)
    &&& field_declared(s[12].fields@[0].sub@[5].sub@[10].sub@[3], "f4"@, 4, FieldKind::Fixed32, true, false, 0)
    &&& field_declared(s[12].fields@[0].sub@[5].sub@[10].sub@[4], "f5"@, 5, FieldKind::Fixed32, true, false, 0)
    &&& field_declared(s[12].fields@[0].sub@[5].sub@[11], "v14"@, 14, FieldKind::VarInt, true, false, 0)
    &&& field_declared(s[12].fields@[0].sub@[6], "v7"@, 7, FieldKind::VarInt, false, false, 0)
    &&& field_declared(s[12].fields@[0].sub@[7], "v8"@, 8, FieldKind::VarInt, false, false, 0)
}

/// The declared user messages.
pub fn user_message_table() -> (t: MessageTable)
    ensures
        user_messages_declared(t.messages@),
{
    MessageTable {
        messages: vec![
            message("SayText", 5, vec![
                field("entity_idx", 1, FieldKind::VarInt, true, false),
                field("text", 2, FieldKind::String, false, false),
                field("is_chat", 3, FieldKind::VarInt, true, false),
                field("is_text_all_chat", 4, FieldKind::VarInt, true, false),
            ]),
            message("SayText2", 6, vec![
                field("ent_sidx", 1, FieldKind::VarInt, false, false),
                field("chat", 2, FieldKind::VarInt, false, false),
                field("msg_name", 3, FieldKind::String, false, false),
                field("params", 4, FieldKind::String, false, true),
                field("text_all_chat", 5, FieldKind::VarInt, false, false),
            ]),
            message("TextMsg", 7, vec![
                field("msg_dst", 1, FieldKind::VarInt, false, false),
                field("params", 3, FieldKind::String, false, true),
            ]),
            message("Shake", 12, vec![
                field("command", 1, FieldKind::VarInt, false, false),
                field("local_amplitude", 2, FieldKind::Float32, false, false),
                field("frequency", 3, FieldKind::Float32, false, false),
                field("duration", 4, FieldKind::Float32, false, false),
            ]),
            message("Damage", 21, vec![
                field("amount", 1, FieldKind::VarInt, false, false),
                proto_field("InflictorWorldPos", 2, false, false, vec![
                    field("_x", 1, FieldKind::Float32, false, false),
                    field("_y", 2, FieldKind::Float32, false, false),
                    field("_z", 3, FieldKind::Float32, false, false),
                ]),
                field("victim_entity_index", 3, FieldKind::VarInt, false, false),
            ]),
            message("ProcessSpottedEntityUpdate", 25, vec![
                field("new_update", 1, FieldKind::VarInt, false, false),
                proto_field("SpottedEntityUpdates", 2, true, true, vec![
                    field("entity_idx", 1, FieldKind::VarInt, false, false),
                    field("class_id", 2, FieldKind::VarInt, false, false),
                    field("origin_x", 3, FieldKind::VarInt, false, false),
                    field("origin_y", 4, FieldKind::VarInt, false, false),
                    field("origin_z", 5, FieldKind::VarInt, false, false),
                    field("angle_y", 6, FieldKind::VarInt, false, false),
                    field("defuser", 7, FieldKind::VarInt, false, false),
                    field("player_has_defuser", 8, FieldKind::VarInt, true, false),
                    field("player_has_c4", 9, FieldKind::VarInt, true, false),
                ]),
            ]),
            message("PlayerStatsUpdate", 36, vec![
                field("version", 1, FieldKind::VarInt, false, false),
                proto_field("Stats", 4, false, true, vec![
                    field("idx", 1, FieldKind::VarInt, false, false),
                    field("delta", 2, FieldKind::VarInt, false, false),
                ]),
                field("user_id", 5, FieldKind::VarInt, false, false),
                field("crc", 6, FieldKind::VarInt, false, false),
            ]),
            message("WarmupEnded", 38, vec![]),
            message("VoteStart", 46, vec![
                field("team", 1, FieldKind::VarInt, false, false),
                field("entity_idx", 2, FieldKind::VarInt, false, false),
                field("vote_type", 3, FieldKind::VarInt, false, false),
                field("display_string", 4, FieldKind::String, false, false),
                field("details_string", 5, FieldKind::String, false, false),
                field("other_team_string", 6, FieldKind::String, false, false),
            ]),
            message("VotePass", 47, vec![
                field("team", 1, FieldKind::VarInt, false, false),
                field("vote_type", 2, FieldKind::VarInt, false, false),
                field("display_string", 3, FieldKind::String, false, false),
                field("details_string", 4, FieldKind::String, false, false),
            ]),
            message("ServerRankRevealAll", 50, vec![]),
            message("P69", 69, vec![
                field("guess_player_idx", 1, FieldKind::VarInt, false, false),
                field("guess_pos_x", 2, FieldKind::Float32, false, false),
                field("guess_pos_y", 3, FieldKind::Float32, false, false),
                field("guess_pos_z", 4, FieldKind::Float32, false, false),
                field("guess_weapon_action", 5, FieldKind::String, false, false),
                field("guess_game_time", 6, FieldKind::Float32, false, false),
            ]),
            message("P75", 75, vec![
                proto_field("P75_P1", 1, false, true, vec![
                    field("v1", 1, FieldKind::VarInt, false, false),
                    field("v2", 2, FieldKind::VarInt, false, false),
                    field("s3", 3, FieldKind::String, false, false),
                    field("v4", 4, FieldKind::VarInt, false, false),
                    proto_field("P75_P1_P5", 5, false, false, vec![
                        field("v1", 1, FieldKind::VarInt, false, false),
                        field("f2", 2, FieldKind::Float32, false, false),
                        field("v3", 3, FieldKind::VarInt, false, false),
                    ]),
                    proto_field("P75_P1_P6", 6, false, true, vec![
                        field("v2", 2, FieldKind::VarInt, false, false),
                        field("v3", 3, FieldKind::VarInt, false, false),
                        field("v4", 4, FieldKind::VarInt, true, false),
                        field("v5", 5, FieldKind::VarInt, true, false),
                        field("v6", 6, FieldKind::VarInt, true, false),
                        field("v7", 7, FieldKind::VarInt, true, false),
                        field("v8", 8, FieldKind::VarInt, true, false),
                        field("v9", 9, FieldKind::VarInt, true, false),
                        field("v10", 10, FieldKind::VarInt, true, false),
                        field("s11", 11, FieldKind::String, true, false),
                        proto_field("P75_P1_P6_P12", 12, true, true, vec![
                            field("v1", 1, FieldKind::VarInt, false, false),
                            field("v2", 2, FieldKind::VarInt, false, false),
                            field("f3", 3, FieldKind::Fixed32, true, false),
                            field("f4", 4, FieldKind::Fixed32, true, false),
                            field("f5", 5, FieldKind::Fixed32, true, false),
                        ]),
                        field("v14", 14, FieldKind::VarInt, true, false),
                    ]),
                    field("v7", 7, FieldKind::VarInt, false, false),
                    field("v8", 8, FieldKind::VarInt, false, false),
                ]),
            ]),
        ],
    }
}

} // verus!

//! Parsing of Source engine demo files (`.dem`): the file header, the frame
//! stream, protobuf encoded network and user messages, and bit packed entity
//! data.
pub mod reader;
pub mod event_data;
pub mod parse_tools;
pub mod bitmath;
pub mod bitbuf;
pub mod protobuf_message;
pub mod engine_types;
pub mod demo_file;
pub mod message_schema;
pub mod naming;

//! Decoding of event-camera recordings: the RAW container header and the
//! EVT 2.0 event stream, with their shared record types.

pub mod events;
pub mod evt;
pub mod extra;
pub mod header;
pub mod header_fields;
pub mod header_laws;
pub mod metadata;
pub mod number;
pub mod reader;
pub mod text;

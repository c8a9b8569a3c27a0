//! Decoder for streams of length-prefixed, schema-typed binary log messages.
//!
//! A stream is a four-byte header followed by messages, each made of a
//! little-endian type id, a little-endian payload length and the payload. A
//! registry gives, for each type id, the ordered field layout by which the
//! payload is turned into named textual values.

pub mod encoding;
pub mod endian;
pub mod export;
pub mod framer;
pub mod group;
pub mod guarantees;
pub mod keys;
pub mod parser;
pub mod registry;
pub mod stream;
pub mod text;
pub mod typecode;

pub use crate::export::export_rows;
pub use crate::framer::{extract_messages, FrameError};
pub use crate::group::{group_by_type, MessageGroup};
pub use crate::parser::{parse_fields, ParsedMessage};
pub use crate::registry::{FieldDef, MessageDef, MessageRegistry};
pub use crate::stream::{Framer, Phase};
pub use crate::typecode::{get_type_size, resolve_type, FieldKind, TypeRule};

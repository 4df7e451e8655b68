//! A tagged binary object-storage format with key-path queries and in-place
//! mutation over byte buffers.
//!
//! A file in this format is a flat concatenation of records. Each record is
//! `[type: u8][body size: u32 BE][name length: i16 BE][name bytes][value bytes]`,
//! where the body size covers the name-length field, the name, and the value.
//! Containers (type 9) hold a concatenation of child records as their value,
//! so nested values are addressed with dot-separated paths such as
//! `"Parent.Child"` without decoding the whole buffer.

pub mod error;
pub mod format;
pub mod streams;
pub mod tags;
pub mod tag_builder;
pub mod keyscout;
pub mod internal_utils;
pub mod ods;
pub mod laws;

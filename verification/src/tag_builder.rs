//! A record header in the middle of decoding.
//!
//! The scanning functions fill a `TagBuilder` field by field as they read a
//! record's header, and `process` turns a fully read header plus its value
//! bytes into a `Tag`.

use vstd::prelude::*;

use crate::error::OdsError;
use crate::format::{decode_value, GValue};
use crate::streams::ReadStream;
use crate::tags::Tag;

verus! {

/// A partially decoded record: header fields plus a stream positioned at the
/// value bytes. A field not yet read holds `-1` (or is empty).
pub struct TagBuilder {
    pub data_type: i32,
    pub data_size: i32,
    pub starting_index: i64,
    pub name: String,
    pub name_size: i32,
    pub value_bytes: Option<ReadStream>,
    pub value_length: i32,
}

impl TagBuilder {
    /// A builder with every field unset.
    pub fn new() -> (r: TagBuilder)
        ensures
            r.data_type == -1,
            r.data_size == -1,
            r.starting_index == -1,
            r.name@ == Seq::<char>::empty(),
            r.name_size == -1,
            r.value_bytes is None,
            r.value_length == -1,
    {
        TagBuilder {
            data_type: -1,
            data_size: -1,
            starting_index: -1,
            name: String::new(),
            name_size: -1,
            value_bytes: None,
            value_length: -1,
        }
    }

    /// Set the record's type byte.
    pub fn set_data_type(&mut self, data_type: i32)
        ensures
            *final(self) == (TagBuilder { data_type, ..*old(self) }),
    {
        self.data_type = data_type;
    }

    /// The record's type byte.
    pub fn get_data_type(&self) -> (r: i32)
        ensures
            r == self.data_type,
    {
        self.data_type
    }

    /// Set the record's body size.
    pub fn set_data_size(&mut self, size: i32)
        ensures
            *final(self) == (TagBuilder { data_size: size, ..*old(self) }),
    {
        self.data_size = size;
    }

    /// The record's body size.
    pub fn get_data_size(&self) -> (r: i32)
        ensures
            r == self.data_size,
    {
        self.data_size
    }

    /// Set the offset at which the record's body begins.
    pub fn set_starting_index(&mut self, starting_index: i64)
        ensures
            *final(self) == (TagBuilder { starting_index, ..*old(self) }),
    {
        self.starting_index = starting_index;
    }

    /// The offset at which the record's body begins.
    pub fn get_starting_index(&self) -> (r: i64)
        ensures
            r == self.starting_index,
    {
        self.starting_index
    }

    /// Set the record's name.
    pub fn set_name(&mut self, name: String)
        ensures
            *final(self) == (TagBuilder { name, ..*old(self) }),
    {
        self.name = name;
    }

    /// The record's name.
    pub fn get_name(&self) -> (r: String)
        ensures
            r@ == self.name@,
    {
        self.name.clone()
    }

    /// Set the record's name length.
    pub fn set_name_size(&mut self, size: i32)
        ensures
            *final(self) == (TagBuilder { name_size: size, ..*old(self) }),
    {
        self.name_size = size;
    }

    /// The record's name length.
    pub fn get_name_size(&self) -> (r: i32)
        ensures
            r == self.name_size,
    {
        self.name_size
    }

    /// Set the stream holding the record's value bytes, positioned at their
    /// start.
    pub fn set_value_bytes(&mut self, read_stream: ReadStream)
        ensures
            *final(self) == (TagBuilder { value_bytes: Some(read_stream), ..*old(self) }),
    {
        self.value_bytes = Some(read_stream);
    }

    /// The stream holding the record's value bytes, if set.
    pub fn get_value_bytes(self) -> (r: Option<ReadStream>)
        ensures
            r == self.value_bytes,
    {
        self.value_bytes
    }

    /// Set the length of the record's value bytes.
    pub fn set_value_length(&mut self, length: i32)
        ensures
            *final(self) == (TagBuilder { value_length: length, ..*old(self) }),
    {
        self.value_length = length;
    }

    /// The length of the record's value bytes.
    pub fn get_value_length(&self) -> (r: i32)
        ensures
            r == self.value_length,
    {
        self.value_length
    }

    /// Decode the header's value bytes into a tag carrying the header's name.
    pub fn process(self) -> (r: Result<Tag, OdsError>)
        requires
            self.value_bytes matches Some(rs) && rs.wf(),
        ensures
            ({
                let rs = self.value_bytes.unwrap();
                if self.data_type < 0 || self.data_type > 255 || self.value_length < 0 {
                    r == Err::<Tag, OdsError>(OdsError::DecodeError)
                } else if rs.spec_pos() + self.value_length > rs.spec_limit() {
                    r == Err::<Tag, OdsError>(OdsError::UnexpectedEof)
                } else {
                    let vb = rs@.subrange(rs.spec_pos(), rs.spec_pos() + self.value_length);
                    match r {
                        Ok(t) => decode_value(self.data_type as u8, vb) == Ok::<
                            GValue,
                            OdsError,
                        >(t@.value) && t@.name == self.name@,
                        Err(e) => decode_value(self.data_type as u8, vb) == Err::<
                            GValue,
                            OdsError,
                        >(e),
                    }
                }
            }),
    {
        if self.data_type < 0 || self.data_type > 255 || self.value_length < 0 {
            return Err(OdsError::DecodeError);
        }
        let mut rs = match self.value_bytes {
            Some(rs) => rs,
            None => {
                proof {
                    assert(false);
                }
                return Err(OdsError::DecodeError);
            },
        };
        let vlen = self.value_length as usize;
        let pos = rs.position();
        if pos > rs.size() || vlen > rs.size() - pos {
            return Err(OdsError::UnexpectedEof);
        }
        Tag::create_from_data(self.data_type as u8, self.name, &mut rs, vlen)
    }
}

} // verus!

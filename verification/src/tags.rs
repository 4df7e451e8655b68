//! Tags: named, typed values and their record codec.
//!
//! A `Tag` is a name plus a value of one of the nine concrete kinds. Container
//! values hold their children's encoded records as raw bytes and decode them
//! lazily: a child is materialized only when addressed. The 32- and 64-bit
//! floating-point kinds carry their IEEE 754 bit patterns, which is exactly
//! what the format stores for them.

use vstd::prelude::*;

use crate::error::OdsError;
use crate::format::{
    clear_name, decode_rec, decode_value, encode_children, id_of,
    lemma_encode_children_prefix_len, lemma_encode_children_snoc, lemma_write_append,
    lemma_write_compose, nth_rec, rec_at, rec_of_tag, u16_be_bytes, u32_be_bytes, wf_gtag,
    write_bytes_at, GRec, GTag, GValue,
};
use crate::internal_utils::seek_nth;
use crate::streams::{bytes_to_string, ReadStream, Stream, WriteStream};

verus! {

/// A container's raw contents: the concatenated encoded records of its
/// children, held as a byte stream and decoded on demand.
pub struct Container {
    data: Stream,
}

impl View for Container {
    type V = Seq<u8>;

    closed spec fn view(&self) -> Seq<u8> {
        self.data@
    }
}

impl Container {
    /// An empty container.
    pub fn new() -> (r: Container)
        ensures
            r@ == Seq::<u8>::empty(),
    {
        Container { data: Stream::new_empty() }
    }

    /// A container over existing child-record bytes.
    pub fn new_with_data(data: Vec<u8>) -> (r: Container)
        ensures
            r@ == data@,
    {
        Container { data: Stream::new_with_data(data) }
    }

    /// The stream holding the children's encoded records.
    pub fn get_data(&self) -> (r: &Stream)
        ensures
            r@ == self@,
    {
        &self.data
    }
}

/// A tag's value: one of the nine concrete kinds the format stores.
pub enum TagValue {
    /// UTF-8 text (type 1).
    Str(String),
    /// A 32-bit signed integer (type 2).
    Int(i32),
    /// The bit pattern of a 32-bit floating-point value (type 3).
    Float(u32),
    /// The bit pattern of a 64-bit floating-point value (type 4).
    Double(u64),
    /// A 16-bit signed integer (type 5).
    Short(i16),
    /// A 64-bit signed integer (type 6).
    Long(i64),
    /// A single character, stored as one byte (type 7).
    Ch(char),
    /// An unsigned byte (type 8).
    Byte(u8),
    /// A container of child records (type 9).
    Cont(Container),
}

impl View for TagValue {
    type V = GValue;

    open spec fn view(&self) -> GValue {
        match self {
            TagValue::Str(s) => GValue::GStr(s@),
            TagValue::Int(x) => GValue::GInt(*x),
            TagValue::Float(bits) => GValue::GFloat(*bits),
            TagValue::Double(bits) => GValue::GDouble(*bits),
            TagValue::Short(x) => GValue::GShort(*x),
            TagValue::Long(x) => GValue::GLong(*x),
            TagValue::Ch(c) => GValue::GChar(*c),
            TagValue::Byte(x) => GValue::GByte(*x),
            TagValue::Cont(c) => GValue::GCont(c@),
        }
    }
}

/// A named, typed value. The type id is derived from the value's kind.
pub struct Tag {
    name: String,
    value: TagValue,
}

impl View for Tag {
    type V = GTag;

    closed spec fn view(&self) -> GTag {
        GTag { name: self.name@, value: self.value@ }
    }
}

// Writes one record: type byte, body size, name length, name, value.
#[verifier::rlimit(100)]
fn write_tag_record(name_s: String, value: &TagValue, write_stream: &mut Stream)
    requires
        wf_gtag(GTag { name: name_s@, value: value@ }),
        old(write_stream).spec_pos() + 5 + rec_of_tag(
            GTag { name: name_s@, value: value@ },
        ).body_size() <= usize::MAX,
    ensures
        ({
            let r = rec_of_tag(GTag { name: name_s@, value: value@ });
            &&& final(write_stream)@ == write_bytes_at(
                old(write_stream)@,
                old(write_stream).spec_pos(),
                r.enc(),
            )
            &&& final(write_stream).spec_pos() == old(write_stream).spec_pos() + r.enc().len()
        }),
{
    let ghost t = GTag { name: name_s@, value: value@ };
    let ghost r = rec_of_tag(t);
    let ty: u8 = match value {
        TagValue::Str(_) => 1,
        TagValue::Int(_) => 2,
        TagValue::Float(_) => 3,
        TagValue::Double(_) => 4,
        TagValue::Short(_) => 5,
        TagValue::Long(_) => 6,
        TagValue::Ch(_) => 7,
        TagValue::Byte(_) => 8,
        TagValue::Cont(_) => 9,
    };
    let name_len = name_s.as_str().as_bytes().len();
    let mut temp = WriteStream::new();
    temp.write_i16(name_len as i16);
    proof {
        lemma_write_append(Seq::<u8>::empty(), u16_be_bytes(r.name.len() as u16));
        assert(Seq::<u8>::empty() + u16_be_bytes(r.name.len() as u16) =~= u16_be_bytes(
            r.name.len() as u16,
        ));
    }
    temp.write_string(name_s.clone());
    proof {
        lemma_write_append(u16_be_bytes(r.name.len() as u16), r.name);
    }
    let ghost header = u16_be_bytes(r.name.len() as u16) + r.name;
    match value {
        TagValue::Str(s) => {
            temp.write_string(s.clone());
        },
        TagValue::Int(x) => {
            temp.write_i32(*x);
        },
        TagValue::Float(bits) => {
            temp.write_f32_bits(*bits);
        },
        TagValue::Double(bits) => {
            temp.write_f64_bits(*bits);
        },
        TagValue::Short(x) => {
            temp.write_i16(*x);
        },
        TagValue::Long(x) => {
            temp.write_i64(*x);
        },
        TagValue::Ch(c) => {
            temp.write_char(*c);
        },
        TagValue::Byte(x) => {
            temp.write(*x);
        },
        TagValue::Cont(c) => {
            let bytes = c.get_data().bytes();
            temp.write_vec(bytes);
        },
    }
    proof {
        lemma_write_append(header, r.value);
        assert(temp@ == header + r.value);
        assert(temp@.len() == r.body_size());
    }
    let body_size = temp.size();
    write_stream.write(ty);
    proof {
        lemma_write_append(seq![ty], u32_be_bytes(r.body_size() as u32));
    }
    write_stream.write_i32(body_size as i32);
    proof {
        assert(crate::format::i32_as_u32(r.body_size() as i32) == r.body_size() as u32);
        lemma_write_compose(
            old(write_stream)@,
            old(write_stream).spec_pos(),
            seq![ty],
            u32_be_bytes(r.body_size() as u32),
        );
    }
    let body = temp.bytes();
    write_stream.write_vec(body);
    proof {
        lemma_write_compose(
            old(write_stream)@,
            old(write_stream).spec_pos(),
            seq![ty] + u32_be_bytes(r.body_size() as u32),
            temp@,
        );
        assert((seq![ty] + u32_be_bytes(r.body_size() as u32)) + temp@ =~= r.enc());
    }
}

impl Tag {
    /// A tag with the given name and value.
    pub fn new(name: String, value: TagValue) -> (r: Tag)
        ensures
            r@.name == name@,
            r@.value == value@,
    {
        Tag { name, value }
    }

    /// The tag's value.
    pub fn get_value(&self) -> (r: &TagValue)
        ensures
            r@ == self@.value,
    {
        &self.value
    }

    /// Replace the tag's value.
    pub fn set_value(&mut self, t: TagValue)
        ensures
            final(self)@.name == old(self)@.name,
            final(self)@.value == t@,
    {
        self.value = t;
    }

    /// The tag's name.
    pub fn get_name(&self) -> (r: &String)
        ensures
            r@ == self@.name,
    {
        &self.name
    }

    /// Replace the tag's name.
    pub fn set_name(&mut self, name: String)
        ensures
            final(self)@.value == old(self)@.value,
            final(self)@.name == name@,
    {
        self.name = name;
    }

    /// The type byte this tag's kind is stored with.
    pub fn get_id(&self) -> (r: u8)
        ensures
            r == id_of(self@.value),
    {
        match &self.value {
            TagValue::Str(_) => 1,
            TagValue::Int(_) => 2,
            TagValue::Float(_) => 3,
            TagValue::Double(_) => 4,
            TagValue::Short(_) => 5,
            TagValue::Long(_) => 6,
            TagValue::Ch(_) => 7,
            TagValue::Byte(_) => 8,
            TagValue::Cont(_) => 9,
        }
    }

    /// Whether this tag's kind is stored with the given type byte.
    pub fn is_tag(&self, type_id: u8) -> (r: bool)
        ensures
            r == (type_id == id_of(self@.value)),
    {
        self.get_id() == type_id
    }

    /// Whether the format can store this tag: the name fits the 16-bit name
    /// length field, the body fits the 32-bit size field, and a character
    /// value fits one byte.
    pub fn is_wf(&self) -> (r: bool)
        ensures
            r == wf_gtag(self@),
    {
        let name_len = self.name.as_str().as_bytes().len();
        if name_len > 0x7FFF {
            return false;
        }
        let value_len: usize = match &self.value {
            TagValue::Str(s) => s.as_str().as_bytes().len(),
            TagValue::Int(_) => 4,
            TagValue::Float(_) => 4,
            TagValue::Double(_) => 8,
            TagValue::Short(_) => 2,
            TagValue::Long(_) => 8,
            TagValue::Ch(_) => 1,
            TagValue::Byte(_) => 1,
            TagValue::Cont(c) => c.get_data().size(),
        };
        if value_len > 0x7FFF_FFFF - 2 - name_len {
            return false;
        }
        match &self.value {
            TagValue::Ch(c) => {
                let code = *c as u32;
                code <= 255
            },
            _ => true,
        }
    }

    /// Encode this tag as one record at the stream's cursor: type byte, body
    /// size, name length, name, value.
    pub fn write_data(&self, write_stream: &mut Stream)
        requires
            wf_gtag(self@),
            old(write_stream).spec_pos() + 5 + rec_of_tag(self@).body_size() <= usize::MAX,
        ensures
            final(write_stream)@ == write_bytes_at(
                old(write_stream)@,
                old(write_stream).spec_pos(),
                rec_of_tag(self@).enc(),
            ),
            final(write_stream).spec_pos() == old(write_stream).spec_pos() + rec_of_tag(
                self@,
            ).enc().len(),
    {
        write_tag_record(self.name.clone(), &self.value, write_stream);
    }

    /// Encode this tag as a list element: the same record with an empty name.
    pub fn write_data_unnamed(&self, write_stream: &mut Stream)
        requires
            wf_gtag(self@),
            old(write_stream).spec_pos() + 5 + rec_of_tag(clear_name(self@)).body_size()
                <= usize::MAX,
        ensures
            final(write_stream)@ == write_bytes_at(
                old(write_stream)@,
                old(write_stream).spec_pos(),
                rec_of_tag(clear_name(self@)).enc(),
            ),
            final(write_stream).spec_pos() == old(write_stream).spec_pos() + rec_of_tag(
                clear_name(self@),
            ).enc().len(),
    {
        proof {
            assert(vstd::utf8::encode_utf8(Seq::<char>::empty()) =~= Seq::<u8>::empty());
        }
        write_tag_record(String::new(), &self.value, write_stream);
    }

    /// Decode a value of the given type from the stream and wrap it, with the
    /// given name, as a tag. Fixed-width kinds need at least their width of
    /// value bytes and ignore any excess; strings decode all value bytes as
    /// UTF-8; containers keep them raw.
    pub fn create_from_data(
        type_id: u8,
        name: String,
        read_stream: &mut ReadStream,
        value_length: usize,
    ) -> (r: Result<Tag, OdsError>)
        requires
            old(read_stream).wf(),
            old(read_stream).spec_pos() + value_length <= old(read_stream).spec_limit(),
        ensures
            final(read_stream)@ == old(read_stream)@,
            final(read_stream).spec_limit() == old(read_stream).spec_limit(),
            final(read_stream).wf(),
            ({
                let vb = old(read_stream)@.subrange(
                    old(read_stream).spec_pos(),
                    old(read_stream).spec_pos() + value_length,
                );
                match r {
                    Ok(t) => decode_value(type_id, vb) == Ok::<GValue, OdsError>(t@.value)
                        && t@.name == name@,
                    Err(e) => decode_value(type_id, vb) == Err::<GValue, OdsError>(e),
                }
            }),
    {
        let ghost vb = old(read_stream)@.subrange(
            old(read_stream).spec_pos(),
            old(read_stream).spec_pos() + value_length,
        );
        if type_id == 1 {
            match read_stream.read_string(value_length) {
                Ok(s) => Ok(Tag { name, value: TagValue::Str(s) }),
                Err(e) => Err(e),
            }
        } else if type_id == 2 {
            if value_length < 4 {
                return Err(OdsError::UnexpectedEof);
            }
            let ghost pre = *read_stream;
            match read_stream.read_i32() {
                Ok(x) => {
                    proof {
                        assert(pre@.subrange(pre.spec_pos(), pre.spec_pos() + 4) =~= vb.subrange(
                            0,
                            4,
                        ));
                    }
                    Ok(Tag { name, value: TagValue::Int(x) })
                },
                Err(e) => {
                    proof {
                        assert(false);
                    }
                    Err(e)
                },
            }
        } else if type_id == 3 {
            if value_length < 4 {
                return Err(OdsError::UnexpectedEof);
            }
            let ghost pre = *read_stream;
            match read_stream.read_f32_bits() {
                Ok(bits) => {
                    proof {
                        assert(pre@.subrange(pre.spec_pos(), pre.spec_pos() + 4) =~= vb.subrange(
                            0,
                            4,
                        ));
                    }
                    Ok(Tag { name, value: TagValue::Float(bits) })
                },
                Err(e) => {
                    proof {
                        assert(false);
                    }
                    Err(e)
                },
            }
        } else if type_id == 4 {
            if value_length < 8 {
                return Err(OdsError::UnexpectedEof);
            }
            let ghost pre = *read_stream;
            match read_stream.read_f64_bits() {
                Ok(bits) => {
                    proof {
                        assert(pre@.subrange(pre.spec_pos(), pre.spec_pos() + 8) =~= vb.subrange(
                            0,
                            8,
                        ));
                    }
                    Ok(Tag { name, value: TagValue::Double(bits) })
                },
                Err(e) => {
                    proof {
                        assert(false);
                    }
                    Err(e)
                },
            }
        } else if type_id == 5 {
            if value_length < 2 {
                return Err(OdsError::UnexpectedEof);
            }
            let ghost pre = *read_stream;
            match read_stream.read_i16() {
                Ok(x) => {
                    proof {
                        assert(pre@.subrange(pre.spec_pos(), pre.spec_pos() + 2) =~= vb.subrange(
                            0,
                            2,
                        ));
                    }
                    Ok(Tag { name, value: TagValue::Short(x) })
                },
                Err(e) => {
                    proof {
                        assert(false);
                    }
                    Err(e)
                },
            }
        } else if type_id == 6 {
            if value_length < 8 {
                return Err(OdsError::UnexpectedEof);
            }
            let ghost pre = *read_stream;
            match read_stream.read_i64() {
                Ok(x) => {
                    proof {
                        assert(pre@.subrange(pre.spec_pos(), pre.spec_pos() + 8) =~= vb.subrange(
                            0,
                            8,
                        ));
                    }
                    Ok(Tag { name, value: TagValue::Long(x) })
                },
                Err(e) => {
                    proof {
                        assert(false);
                    }
                    Err(e)
                },
            }
        } else if type_id == 7 {
            if value_length < 1 {
                return Err(OdsError::UnexpectedEof);
            }
            match read_stream.read_char() {
                Ok(c) => Ok(Tag { name, value: TagValue::Ch(c) }),
                Err(e) => {
                    proof {
                        assert(false);
                    }
                    Err(e)
                },
            }
        } else if type_id == 8 {
            if value_length < 1 {
                return Err(OdsError::UnexpectedEof);
            }
            match read_stream.read() {
                Ok(x) => Ok(Tag { name, value: TagValue::Byte(x) }),
                Err(e) => {
                    proof {
                        assert(false);
                    }
                    Err(e)
                },
            }
        } else if type_id == 9 {
            match read_stream.read_vec(value_length) {
                Ok(v) => Ok(Tag { name, value: TagValue::Cont(Container::new_with_data(v)) }),
                Err(e) => {
                    proof {
                        assert(false);
                    }
                    Err(e)
                },
            }
        } else {
            Err(OdsError::DecodeError)
        }
    }

    /// A container tag holding the given tags as list elements, each encoded
    /// with an empty name, in order.
    pub fn from_vec(name: String, tags: &Vec<Tag>) -> (r: Tag)
        requires
            forall|i: int| 0 <= i < tags@.len() ==> wf_gtag(#[trigger] tags@[i]@),
            encode_children(tags@.map_values(|t: Tag| t@)).len() + 5 <= usize::MAX,
        ensures
            r@.name == name@,
            r@.value == GValue::GCont(encode_children(tags@.map_values(|t: Tag| t@))),
    {
        let ghost gtags = tags@.map_values(|t: Tag| t@);
        let mut write_stream = Stream::new_empty();
        let mut i: usize = 0;
        while i < tags.len()
            invariant
                i <= tags@.len(),
                gtags == tags@.map_values(|t: Tag| t@),
                forall|k: int| 0 <= k < tags@.len() ==> wf_gtag(#[trigger] tags@[k]@),
                encode_children(gtags).len() + 5 <= usize::MAX,
                write_stream@ == encode_children(gtags.subrange(0, i as int)),
                write_stream.spec_pos() == write_stream@.len(),
            decreases tags@.len() - i,
        {
            proof {
                lemma_encode_children_snoc(gtags, i as int);
                lemma_encode_children_prefix_len(gtags, i + 1);
                assert(gtags[i as int] == tags@[i as int]@);
                assert(wf_gtag(clear_name(gtags[i as int])));
            }
            let child = &tags[i];
            child.write_data_unnamed(&mut write_stream);
            proof {
                lemma_write_append(
                    encode_children(gtags.subrange(0, i as int)),
                    rec_of_tag(clear_name(gtags[i as int])).enc(),
                );
            }
            i = i + 1;
        }
        proof {
            assert(gtags.subrange(0, gtags.len() as int) =~= gtags);
        }
        let data = write_stream.bytes();
        Tag { name, value: TagValue::Cont(Container::new_with_data(data)) }
    }

    /// Decode this container's child record at the given position (by scan
    /// order, counting from zero). `Ok(None)` when there are fewer children;
    /// an error on a non-container tag or bytes that cannot be interpreted.
    pub fn get(&self, index: usize) -> (r: Result<Option<Tag>, OdsError>)
        ensures
            ({
                match self@.value {
                    GValue::GCont(d) => {
                        let nr = nth_rec(d, 0, d.len() as int, index as int);
                        match r {
                            Ok(Some(t)) => nr matches Ok(Some(rec)) && decode_rec(rec) == Ok::<
                                GTag,
                                OdsError,
                            >(t@),
                            Ok(None) => nr == Ok::<Option<GRec>, OdsError>(None),
                            Err(e) => nr == Err::<Option<GRec>, OdsError>(e) || (nr matches Ok(
                                Some(rec),
                            ) && decode_rec(rec) == Err::<GTag, OdsError>(e)),
                        }
                    },
                    _ => r == Err::<Option<Tag>, OdsError>(OdsError::UnsupportedOperation),
                }
            }),
    {
        let c = match &self.value {
            TagValue::Cont(c) => c,
            _ => {
                return Err(OdsError::UnsupportedOperation);
            },
        };
        let ghost d = c@;
        let bytes = c.get_data().bytes();
        let mut rs = ReadStream::new_with_data(bytes);
        let header = match seek_nth(&mut rs, index) {
            Ok(Some(h)) => h,
            Ok(None) => {
                return Ok(None);
            },
            Err(e) => {
                return Err(e);
            },
        };
        let (ty, start, size, nlen) = header;
        let ghost rec = rec_at(d, start as int);
        let name_bytes = match rs.read_vec(nlen) {
            Ok(v) => v,
            Err(_) => {
                proof {
                    assert(false);
                }
                return Err(OdsError::UnexpectedEof);
            },
        };
        proof {
            assert(rec.name =~= d.subrange(start as int + 7, start as int + 7 + nlen as int));
        }
        let tag_name = match bytes_to_string(name_bytes) {
            Some(s) => s,
            None => {
                return Err(OdsError::DecodeError);
            },
        };
        let value_length = size - 2 - nlen;
        proof {
            assert(rec.value =~= d.subrange(
                start as int + 7 + nlen as int,
                start as int + 7 + nlen as int + value_length as int,
            ));
        }
        match Tag::create_from_data(ty, tag_name, &mut rs, value_length) {
            Ok(t) => Ok(Some(t)),
            Err(e) => Err(e),
        }
    }

    /// Whether this container's child record at the given position carries
    /// the given type byte; `Ok(false)` when there are fewer children. An
    /// error on a non-container tag or bytes that cannot be interpreted.
    pub fn is_type(&self, index: usize, type_id: u8) -> (r: Result<bool, OdsError>)
        ensures
            ({
                match self@.value {
                    GValue::GCont(d) => {
                        let nr = nth_rec(d, 0, d.len() as int, index as int);
                        match r {
                            Ok(found) => nr matches Ok(o) && (found <==> (o matches Some(rec)
                                && rec.ty == type_id)),
                            Err(e) => nr == Err::<Option<GRec>, OdsError>(e),
                        }
                    },
                    _ => r == Err::<bool, OdsError>(OdsError::UnsupportedOperation),
                }
            }),
    {
        let c = match &self.value {
            TagValue::Cont(c) => c,
            _ => {
                return Err(OdsError::UnsupportedOperation);
            },
        };
        let bytes = c.get_data().bytes();
        let mut rs = ReadStream::new_with_data(bytes);
        match seek_nth(&mut rs, index) {
            Ok(Some(h)) => Ok(h.0 == type_id),
            Ok(None) => Ok(false),
            Err(e) => Err(e),
        }
    }

    /// Append a tag to this container's children, encoded as a list element
    /// with an empty name. Fails on a non-container tag.
    pub fn add(&mut self, tag: Tag) -> (r: Result<(), OdsError>)
        requires
            wf_gtag(tag@),
            (old(self)@.value matches GValue::GCont(d) ==> d.len() + 5 + rec_of_tag(
                clear_name(tag@),
            ).body_size() <= usize::MAX),
        ensures
            final(self)@.name == old(self)@.name,
            match r {
                Ok(()) => old(self)@.value matches GValue::GCont(d) && final(self)@.value
                    == GValue::GCont(d + rec_of_tag(clear_name(tag@)).enc()),
                Err(e) => e == OdsError::UnsupportedOperation && !(old(
                    self,
                )@.value matches GValue::GCont(_)) && final(self)@.value == old(self)@.value,
            },
    {
        match &mut self.value {
            TagValue::Cont(c) => {
                c.data.goto_end();
                proof {
                    assert(wf_gtag(clear_name(tag@)));
                }
                tag.write_data_unnamed(&mut c.data);
                proof {
                    lemma_write_append(old(self)@.value->GCont_0, rec_of_tag(clear_name(tag@)).enc());
                }
                Ok(())
            },
            _ => Err(OdsError::UnsupportedOperation),
        }
    }
}

} // verus!

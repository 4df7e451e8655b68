//! Seekable byte cursors over in-memory buffers.
//!
//! `Stream` reads and writes, `ReadStream` only reads but carries an explicit
//! read limit so it can stand for a sub-range of a larger buffer without
//! copying it, and `WriteStream` only writes. All multi-byte values are
//! big-endian. Reading past the end of the readable range fails with
//! `UnexpectedEof`; a failed read leaves the cursor where it was.

use vstd::prelude::*;

use crate::error::OdsError;
use crate::format::{
    be_i16, be_i32, be_i64, be_u16, be_u32, be_u64, i16_as_u16, i32_as_u32, i64_as_u64,
    u16_be_bytes, u32_be_bytes, u64_be_bytes, write_bytes_at, zero_pad,
};

verus! {

/// Relies on `String::from_utf8`: it succeeds exactly when the bytes are valid
/// UTF-8, and then returns the string whose characters are the bytes' UTF-8
/// decoding.
#[verifier::external_body]
pub(crate) fn bytes_to_string(v: Vec<u8>) -> (r: Option<String>)
    ensures
        r is Some <==> vstd::utf8::valid_utf8(v@),
        r matches Some(s) ==> s@ == vstd::utf8::decode_utf8(v@),
{
    match String::from_utf8(v) {
        Ok(s) => Some(s),
        Err(_) => None,
    }
}

// ---------------------------------------------------------------------------
// Shared read primitives over a buffer, a position, and a read limit
// ---------------------------------------------------------------------------

fn read_byte_at(data: &Vec<u8>, pos: usize, limit: usize) -> (r: Result<u8, OdsError>)
    requires
        limit <= data@.len(),
    ensures
        match r {
            Ok(b) => pos < limit && b == data@[pos as int],
            Err(e) => e == OdsError::UnexpectedEof && pos >= limit,
        },
{
    if pos < limit {
        Ok(data[pos])
    } else {
        Err(OdsError::UnexpectedEof)
    }
}

fn read_range(data: &Vec<u8>, pos: usize, n: usize, limit: usize) -> (r: Result<
    Vec<u8>,
    OdsError,
>)
    requires
        limit <= data@.len(),
    ensures
        match r {
            Ok(v) => pos + n <= limit && v@ == data@.subrange(pos as int, pos + n),
            Err(e) => e == OdsError::UnexpectedEof && pos + n > limit,
        },
{
    if pos > limit || n > limit - pos {
        return Err(OdsError::UnexpectedEof);
    }
    let mut out: Vec<u8> = Vec::new();
    let mut i: usize = 0;
    while i < n
        invariant
            i <= n,
            pos + n <= limit <= data@.len(),
            out@ == data@.subrange(pos as int, pos + i),
        decreases n - i,
    {
        out.push(data[pos + i]);
        i = i + 1;
        assert(out@ =~= data@.subrange(pos as int, pos + i));
    }
    Ok(out)
}

fn read_u16_at(data: &Vec<u8>, pos: usize, limit: usize) -> (r: Result<u16, OdsError>)
    requires
        limit <= data@.len(),
    ensures
        match r {
            Ok(v) => pos + 2 <= limit && v as int == be_u16(data@.subrange(pos as int, pos + 2)),
            Err(e) => e == OdsError::UnexpectedEof && pos + 2 > limit,
        },
{
    if pos > limit || 2 > limit - pos {
        return Err(OdsError::UnexpectedEof);
    }
    let v: u16 = (data[pos] as u16) * 0x100 + (data[pos + 1] as u16);
    Ok(v)
}

fn read_u32_at(data: &Vec<u8>, pos: usize, limit: usize) -> (r: Result<u32, OdsError>)
    requires
        limit <= data@.len(),
    ensures
        match r {
            Ok(v) => pos + 4 <= limit && v as int == be_u32(data@.subrange(pos as int, pos + 4)),
            Err(e) => e == OdsError::UnexpectedEof && pos + 4 > limit,
        },
{
    if pos > limit || 4 > limit - pos {
        return Err(OdsError::UnexpectedEof);
    }
    let v: u32 = (data[pos] as u32) * 0x100_0000 + (data[pos + 1] as u32) * 0x1_0000 + (data[pos
        + 2] as u32) * 0x100 + (data[pos + 3] as u32);
    Ok(v)
}

fn read_u64_at(data: &Vec<u8>, pos: usize, limit: usize) -> (r: Result<u64, OdsError>)
    requires
        limit <= data@.len(),
    ensures
        match r {
            Ok(v) => pos + 8 <= limit && v as int == be_u64(data@.subrange(pos as int, pos + 8)),
            Err(e) => e == OdsError::UnexpectedEof && pos + 8 > limit,
        },
{
    if pos > limit || 8 > limit - pos {
        return Err(OdsError::UnexpectedEof);
    }
    let v: u64 = (data[pos] as u64) * 0x100_0000_0000_0000 + (data[pos + 1] as u64)
        * 0x1_0000_0000_0000 + (data[pos + 2] as u64) * 0x100_0000_0000 + (data[pos + 3] as u64)
        * 0x1_0000_0000 + (data[pos + 4] as u64) * 0x100_0000 + (data[pos + 5] as u64) * 0x1_0000 + (
    data[pos + 6] as u64) * 0x100 + (data[pos + 7] as u64);
    Ok(v)
}

// ---------------------------------------------------------------------------
// Signed/unsigned conversions matching the two's complement spec functions
// ---------------------------------------------------------------------------

fn u16_to_i16_val(u: u16) -> (r: i16)
    ensures
        r as int == if u < 0x8000 {
            u as int
        } else {
            u as int - 0x1_0000
        },
{
    if u < 0x8000 {
        u as i16
    } else {
        let d = (0xFFFFu16 - u) as i16;
        -d - 1
    }
}

fn u32_to_i32_val(u: u32) -> (r: i32)
    ensures
        r as int == if u < 0x8000_0000 {
            u as int
        } else {
            u as int - 0x1_0000_0000
        },
{
    if u < 0x8000_0000 {
        u as i32
    } else {
        let d = (0xFFFF_FFFFu32 - u) as i32;
        -d - 1
    }
}

fn u64_to_i64_val(u: u64) -> (r: i64)
    ensures
        r as int == if u < 0x8000_0000_0000_0000 {
            u as int
        } else {
            u as int - 0x1_0000_0000_0000_0000
        },
{
    if u < 0x8000_0000_0000_0000 {
        u as i64
    } else {
        let d = (0xFFFF_FFFF_FFFF_FFFFu64 - u) as i64;
        -d - 1
    }
}

fn i16_to_u16_val(x: i16) -> (r: u16)
    ensures
        r == i16_as_u16(x),
{
    if x >= 0 {
        x as u16
    } else {
        ((x as i32) + 0x1_0000) as u16
    }
}

pub(crate) fn i32_to_u32_val(x: i32) -> (r: u32)
    ensures
        r == i32_as_u32(x),
{
    if x >= 0 {
        x as u32
    } else {
        ((x as i64) + 0x1_0000_0000) as u32
    }
}

fn i64_to_u64_val(x: i64) -> (r: u64)
    ensures
        r == i64_as_u64(x),
{
    if x >= 0 {
        x as u64
    } else {
        let low = x - i64::MIN;
        (low as u64) + 0x8000_0000_0000_0000u64
    }
}

// ---------------------------------------------------------------------------
// Big-endian byte construction
// ---------------------------------------------------------------------------

fn u16_to_be(x: u16) -> (r: Vec<u8>)
    ensures
        r@ == u16_be_bytes(x),
{
    let mut v: Vec<u8> = Vec::new();
    v.push((x / 0x100) as u8);
    v.push((x % 0x100) as u8);
    assert(v@ =~= u16_be_bytes(x));
    v
}

fn u32_to_be(x: u32) -> (r: Vec<u8>)
    ensures
        r@ == u32_be_bytes(x),
{
    let mut v: Vec<u8> = Vec::new();
    v.push((x / 0x100_0000) as u8);
    v.push(((x / 0x1_0000) % 0x100) as u8);
    v.push(((x / 0x100) % 0x100) as u8);
    v.push((x % 0x100) as u8);
    assert(v@ =~= u32_be_bytes(x));
    v
}

fn u64_to_be(x: u64) -> (r: Vec<u8>)
    ensures
        r@ == u64_be_bytes(x),
{
    let mut v: Vec<u8> = Vec::new();
    v.push((x / 0x100_0000_0000_0000) as u8);
    v.push(((x / 0x1_0000_0000_0000) % 0x100) as u8);
    v.push(((x / 0x100_0000_0000) % 0x100) as u8);
    v.push(((x / 0x1_0000_0000) % 0x100) as u8);
    v.push(((x / 0x100_0000) % 0x100) as u8);
    v.push(((x / 0x1_0000) % 0x100) as u8);
    v.push(((x / 0x100) % 0x100) as u8);
    v.push((x % 0x100) as u8);
    assert(v@ =~= u64_be_bytes(x));
    v
}

// ---------------------------------------------------------------------------
// The shared write primitive
// ---------------------------------------------------------------------------

fn write_all(data: &mut Vec<u8>, pos: usize, w: &Vec<u8>) -> (newpos: usize)
    requires
        pos + w@.len() <= usize::MAX,
    ensures
        final(data)@ == write_bytes_at(old(data)@, pos as int, w@),
        newpos == pos + w@.len(),
{
    while data.len() < pos
        invariant
            old(data)@.len() <= data@.len(),
            old(data)@.len() < data@.len() ==> data@.len() <= pos,
            data@ == zero_pad(old(data)@, data@.len() as int),
        decreases pos - data.len(),
    {
        data.push(0);
        assert(data@ =~= zero_pad(old(data)@, data@.len() as int));
    }
    let ghost padded = data@;
    assert(padded =~= zero_pad(old(data)@, pos as int));
    let mut i: usize = 0;
    while i < w.len()
        invariant
            i <= w@.len(),
            pos + w@.len() <= usize::MAX,
            padded.len() >= pos,
            data@.len() == if padded.len() >= pos + i {
                padded.len() as int
            } else {
                pos + i
            },
            forall|j: int|
                0 <= j < data@.len() ==> data@[j] == (if pos <= j < pos + i {
                    w@[j - pos]
                } else {
                    padded[j]
                }),
        decreases w@.len() - i,
    {
        if pos + i < data.len() {
            data[pos + i] = w[i];
        } else {
            data.push(w[i]);
        }
        i = i + 1;
    }
    assert(data@ =~= write_bytes_at(old(data)@, pos as int, w@));
    pos + w.len()
}

// ---------------------------------------------------------------------------
// Stream: a read-write cursor
// ---------------------------------------------------------------------------

/// A seekable, growable byte buffer that both reads and writes.
#[derive(Clone, Debug)]
pub struct Stream {
    pub data: Vec<u8>,
    pub pos: usize,
}

impl View for Stream {
    type V = Seq<u8>;

    open spec fn view(&self) -> Seq<u8> {
        self.data@
    }
}

impl Stream {
    /// The cursor position.
    pub open spec fn spec_pos(self) -> int {
        self.pos as int
    }

    /// A stream with no data, positioned at the start.
    pub fn new_empty() -> (r: Stream)
        ensures
            r@ == Seq::<u8>::empty(),
            r.spec_pos() == 0,
    {
        Stream { data: Vec::new(), pos: 0 }
    }

    /// A stream over existing data, positioned at its end.
    pub fn new_with_data(data: Vec<u8>) -> (r: Stream)
        ensures
            r@ == data@,
            r.spec_pos() == data@.len(),
    {
        let pos = data.len();
        Stream { data, pos }
    }

    /// Read one byte.
    pub fn read(&mut self) -> (r: Result<u8, OdsError>)
        ensures
            final(self)@ == old(self)@,
            match r {
                Ok(b) => old(self).spec_pos() < old(self)@.len() && b == old(self)@[old(self).spec_pos()] && final(self).spec_pos() == old(self).spec_pos() + 1,
                Err(e) => e == OdsError::UnexpectedEof && old(self).spec_pos() >= old(self)@.len()
                    && *final(self) == *old(self),
            },
    {
        let limit = self.data.len();
        match read_byte_at(&self.data, self.pos, limit) {
            Ok(b) => {
                self.pos = self.pos + 1;
                Ok(b)
            },
            Err(e) => Err(e),
        }
    }

    /// Read exactly `n` bytes into a fresh vector.
    pub fn read_vec(&mut self, n: usize) -> (r: Result<Vec<u8>, OdsError>)
        ensures
            final(self)@ == old(self)@,
            match r {
                Ok(v) => old(self).spec_pos() + n <= old(self)@.len() && v@ == old(self)@.subrange(old(self).spec_pos(), old(self).spec_pos() + n) && final(self).spec_pos() == old(self).spec_pos() + n,
                Err(e) => e == OdsError::UnexpectedEof && old(self).spec_pos() + n > old(self)@.len() && *final(self) == *old(self),
            },
    {
        let limit = self.data.len();
        match read_range(&self.data, self.pos, n, limit) {
            Ok(v) => {
                self.pos = self.pos + n;
                Ok(v)
            },
            Err(e) => Err(e),
        }
    }

    /// Read exactly `n` bytes and decode them as UTF-8.
    pub fn read_string(&mut self, n: usize) -> (r: Result<String, OdsError>)
        ensures
            final(self)@ == old(self)@,
            match r {
                Ok(s) => old(self).spec_pos() + n <= old(self)@.len() && vstd::utf8::valid_utf8(
                    old(self)@.subrange(old(self).spec_pos(), old(self).spec_pos() + n),
                ) && s@ == vstd::utf8::decode_utf8(
                    old(self)@.subrange(old(self).spec_pos(), old(self).spec_pos() + n),
                ) && final(self).spec_pos() == old(self).spec_pos() + n,
                Err(e) => *final(self) == *old(self) && (if old(self).spec_pos() + n > old(self)@.len() {
                    e == OdsError::UnexpectedEof
                } else {
                    e == OdsError::DecodeError && !vstd::utf8::valid_utf8(
                        old(self)@.subrange(old(self).spec_pos(), old(self).spec_pos() + n),
                    )
                }),
            },
    {
        let limit = self.data.len();
        match read_range(&self.data, self.pos, n, limit) {
            Ok(v) => {
                match bytes_to_string(v) {
                    Some(s) => {
                        self.pos = self.pos + n;
                        Ok(s)
                    },
                    None => Err(OdsError::DecodeError),
                }
            },
            Err(e) => Err(e),
        }
    }

    /// Read a big-endian signed 16-bit value.
    pub fn read_i16(&mut self) -> (r: Result<i16, OdsError>)
        ensures
            final(self)@ == old(self)@,
            match r {
                Ok(v) => old(self).spec_pos() + 2 <= old(self)@.len() && v as int == be_i16(
                    old(self)@.subrange(old(self).spec_pos(), old(self).spec_pos() + 2),
                ) && final(self).spec_pos() == old(self).spec_pos() + 2,
                Err(e) => e == OdsError::UnexpectedEof && old(self).spec_pos() + 2 > old(self)@.len() && *final(self) == *old(self),
            },
    {
        let limit = self.data.len();
        match read_u16_at(&self.data, self.pos, limit) {
            Ok(u) => {
                self.pos = self.pos + 2;
                Ok(u16_to_i16_val(u))
            },
            Err(e) => Err(e),
        }
    }

    /// Read a big-endian signed 32-bit value.
    pub fn read_i32(&mut self) -> (r: Result<i32, OdsError>)
        ensures
            final(self)@ == old(self)@,
            match r {
                Ok(v) => old(self).spec_pos() + 4 <= old(self)@.len() && v as int == be_i32(
                    old(self)@.subrange(old(self).spec_pos(), old(self).spec_pos() + 4),
                ) && final(self).spec_pos() == old(self).spec_pos() + 4,
                Err(e) => e == OdsError::UnexpectedEof && old(self).spec_pos() + 4 > old(self)@.len() && *final(self) == *old(self),
            },
    {
        let limit = self.data.len();
        match read_u32_at(&self.data, self.pos, limit) {
            Ok(u) => {
                self.pos = self.pos + 4;
                Ok(u32_to_i32_val(u))
            },
            Err(e) => Err(e),
        }
    }

    /// Read a big-endian signed 64-bit value.
    pub fn read_i64(&mut self) -> (r: Result<i64, OdsError>)
        ensures
            final(self)@ == old(self)@,
            match r {
                Ok(v) => old(self).spec_pos() + 8 <= old(self)@.len() && v as int == be_i64(
                    old(self)@.subrange(old(self).spec_pos(), old(self).spec_pos() + 8),
                ) && final(self).spec_pos() == old(self).spec_pos() + 8,
                Err(e) => e == OdsError::UnexpectedEof && old(self).spec_pos() + 8 > old(self)@.len() && *final(self) == *old(self),
            },
    {
        let limit = self.data.len();
        match read_u64_at(&self.data, self.pos, limit) {
            Ok(u) => {
                self.pos = self.pos + 8;
                Ok(u64_to_i64_val(u))
            },
            Err(e) => Err(e),
        }
    }

    /// Read one byte widened to a character.
    pub fn read_char(&mut self) -> (r: Result<char, OdsError>)
        ensures
            final(self)@ == old(self)@,
            match r {
                Ok(c) => old(self).spec_pos() < old(self)@.len() && c == (old(self)@[old(self).spec_pos()] as char) && final(self).spec_pos() == old(self).spec_pos() + 1,
                Err(e) => e == OdsError::UnexpectedEof && old(self).spec_pos() >= old(self)@.len()
                    && *final(self) == *old(self),
            },
    {
        match self.read() {
            Ok(b) => Ok(b as char),
            Err(e) => Err(e),
        }
    }

    /// Write one byte at the cursor, overwriting or growing.
    pub fn write(&mut self, byte: u8)
        requires
            old(self).spec_pos() + 1 <= usize::MAX,
        ensures
            final(self)@ == write_bytes_at(old(self)@, old(self).spec_pos(), seq![byte]),
            final(self).spec_pos() == old(self).spec_pos() + 1,
    {
        let mut v: Vec<u8> = Vec::new();
        v.push(byte);
        assert(v@ =~= seq![byte]);
        self.pos = write_all(&mut self.data, self.pos, &v);
    }

    /// Write a vector of bytes at the cursor.
    pub fn write_vec(&mut self, bytes: Vec<u8>)
        requires
            old(self).spec_pos() + bytes@.len() <= usize::MAX,
        ensures
            final(self)@ == write_bytes_at(old(self)@, old(self).spec_pos(), bytes@),
            final(self).spec_pos() == old(self).spec_pos() + bytes@.len(),
    {
        self.pos = write_all(&mut self.data, self.pos, &bytes);
    }

    /// Write a big-endian signed 16-bit value.
    pub fn write_i16(&mut self, short: i16)
        requires
            old(self).spec_pos() + 2 <= usize::MAX,
        ensures
            final(self)@ == write_bytes_at(
                old(self)@,
                old(self).spec_pos(),
                u16_be_bytes(i16_as_u16(short)),
            ),
            final(self).spec_pos() == old(self).spec_pos() + 2,
    {
        let v = u16_to_be(i16_to_u16_val(short));
        self.pos = write_all(&mut self.data, self.pos, &v);
    }

    /// Write a big-endian signed 32-bit value.
    pub fn write_i32(&mut self, int_val: i32)
        requires
            old(self).spec_pos() + 4 <= usize::MAX,
        ensures
            final(self)@ == write_bytes_at(
                old(self)@,
                old(self).spec_pos(),
                u32_be_bytes(i32_as_u32(int_val)),
            ),
            final(self).spec_pos() == old(self).spec_pos() + 4,
    {
        let v = u32_to_be(i32_to_u32_val(int_val));
        self.pos = write_all(&mut self.data, self.pos, &v);
    }

    /// Write a big-endian signed 64-bit value.
    pub fn write_i64(&mut self, long: i64)
        requires
            old(self).spec_pos() + 8 <= usize::MAX,
        ensures
            final(self)@ == write_bytes_at(
                old(self)@,
                old(self).spec_pos(),
                u64_be_bytes(i64_as_u64(long)),
            ),
            final(self).spec_pos() == old(self).spec_pos() + 8,
    {
        let v = u64_to_be(i64_to_u64_val(long));
        self.pos = write_all(&mut self.data, self.pos, &v);
    }

    /// Write a character's low byte.
    pub fn write_char(&mut self, character: char)
        requires
            old(self).spec_pos() + 1 <= usize::MAX,
        ensures
            final(self)@ == write_bytes_at(
                old(self)@,
                old(self).spec_pos(),
                seq![(character as u32 % 0x100) as u8],
            ),
            final(self).spec_pos() == old(self).spec_pos() + 1,
    {
        let code = character as u32;
        self.write((code % 0x100) as u8);
    }

    /// Write a string's UTF-8 bytes.
    pub fn write_string(&mut self, string: String)
        requires
            old(self).spec_pos() + vstd::utf8::encode_utf8(string@).len() <= usize::MAX,
        ensures
            final(self)@ == write_bytes_at(
                old(self)@,
                old(self).spec_pos(),
                vstd::utf8::encode_utf8(string@),
            ),
            final(self).spec_pos() == old(self).spec_pos() + vstd::utf8::encode_utf8(string@).len(),
    {
        let v = string.as_str().as_bytes_vec();
        self.pos = write_all(&mut self.data, self.pos, &v);
    }

    /// Read the big-endian bit pattern of a 32-bit floating-point value.
    pub fn read_f32_bits(&mut self) -> (r: Result<u32, OdsError>)
        ensures
            final(self)@ == old(self)@,
            match r {
                Ok(v) => old(self).spec_pos() + 4 <= old(self)@.len() && v as int == be_u32(
                    old(self)@.subrange(old(self).spec_pos(), old(self).spec_pos() + 4),
                ) && final(self).spec_pos() == old(self).spec_pos() + 4,
                Err(e) => e == OdsError::UnexpectedEof && old(self).spec_pos() + 4 > old(self)@.len()
                    && *final(self) == *old(self),
            },
    {
        let limit = self.data.len();
        match read_u32_at(&self.data, self.pos, limit) {
            Ok(u) => {
                self.pos = self.pos + 4;
                Ok(u)
            },
            Err(e) => Err(e),
        }
    }

    /// Read the big-endian bit pattern of a 64-bit floating-point value.
    pub fn read_f64_bits(&mut self) -> (r: Result<u64, OdsError>)
        ensures
            final(self)@ == old(self)@,
            match r {
                Ok(v) => old(self).spec_pos() + 8 <= old(self)@.len() && v as int == be_u64(
                    old(self)@.subrange(old(self).spec_pos(), old(self).spec_pos() + 8),
                ) && final(self).spec_pos() == old(self).spec_pos() + 8,
                Err(e) => e == OdsError::UnexpectedEof && old(self).spec_pos() + 8 > old(self)@.len()
                    && *final(self) == *old(self),
            },
    {
        let limit = self.data.len();
        match read_u64_at(&self.data, self.pos, limit) {
            Ok(u) => {
                self.pos = self.pos + 8;
                Ok(u)
            },
            Err(e) => Err(e),
        }
    }

    /// Write the big-endian bit pattern of a 32-bit floating-point value.
    pub fn write_f32_bits(&mut self, bits: u32)
        requires
            old(self).spec_pos() + 4 <= usize::MAX,
        ensures
            final(self)@ == write_bytes_at(old(self)@, old(self).spec_pos(), u32_be_bytes(bits)),
            final(self).spec_pos() == old(self).spec_pos() + 4,
    {
        let v = u32_to_be(bits);
        self.pos = write_all(&mut self.data, self.pos, &v);
    }

    /// Write the big-endian bit pattern of a 64-bit floating-point value.
    pub fn write_f64_bits(&mut self, bits: u64)
        requires
            old(self).spec_pos() + 8 <= usize::MAX,
        ensures
            final(self)@ == write_bytes_at(old(self)@, old(self).spec_pos(), u64_be_bytes(bits)),
            final(self).spec_pos() == old(self).spec_pos() + 8,
    {
        let v = u64_to_be(bits);
        self.pos = write_all(&mut self.data, self.pos, &v);
    }

    /// Move the cursor to an absolute position.
    pub fn set_position(&mut self, position: usize)
        ensures
            final(self)@ == old(self)@,
            final(self).spec_pos() == position,
    {
        self.pos = position;
    }

    /// Advance the cursor without reading.
    pub fn skip(&mut self, skip_amount: usize)
        requires
            old(self).spec_pos() + skip_amount <= usize::MAX,
        ensures
            final(self)@ == old(self)@,
            final(self).spec_pos() == old(self).spec_pos() + skip_amount,
    {
        self.pos = self.pos + skip_amount;
    }

    /// The number of bytes in the buffer.
    pub fn size(&self) -> (r: usize)
        ensures
            r == self@.len(),
    {
        self.data.len()
    }

    /// The cursor position.
    pub fn position(&self) -> (r: usize)
        ensures
            r as int == self.spec_pos(),
    {
        self.pos
    }

    /// Whether the cursor is strictly before the end of the buffer.
    pub fn can_read_more(&self) -> (r: bool)
        ensures
            r == (self.spec_pos() < self@.len()),
    {
        self.pos < self.data.len()
    }

    /// Move the cursor to the end of the buffer.
    pub fn goto_end(&mut self)
        ensures
            final(self)@ == old(self)@,
            final(self).spec_pos() == old(self)@.len(),
    {
        self.pos = self.data.len();
    }

    /// A copy of the whole buffer, independent of the cursor.
    pub fn bytes(&self) -> (r: Vec<u8>)
        ensures
            r@ == self@,
    {
        let limit = self.data.len();
        match read_range(&self.data, 0, limit, limit) {
            Ok(v) => {
                assert(v@ =~= self@);
                v
            },
            Err(_) => {
                // Unreachable: the whole range is always readable.
                assert(false);
                Vec::new()
            },
        }
    }
}

// ---------------------------------------------------------------------------
// ReadStream: a bounded read-only cursor
// ---------------------------------------------------------------------------

/// A read-only cursor with an explicit read limit, so it can stand for the
/// byte range of one record's value inside a larger buffer.
#[derive(Clone, Debug)]
pub struct ReadStream {
    pub data: Vec<u8>,
    pub pos: usize,
    pub limit: usize,
}

impl View for ReadStream {
    type V = Seq<u8>;

    open spec fn view(&self) -> Seq<u8> {
        self.data@
    }
}

impl ReadStream {
    /// The cursor position.
    pub open spec fn spec_pos(self) -> int {
        self.pos as int
    }

    /// The read limit: reads stop here rather than at the end of the buffer.
    pub open spec fn spec_limit(self) -> int {
        self.limit as int
    }

    /// The limit never exceeds the buffer.
    pub open spec fn wf(self) -> bool {
        self.limit <= self.data@.len()
    }

    /// A read stream over a whole buffer, positioned at the start.
    pub fn new_with_data(data: Vec<u8>) -> (r: ReadStream)
        ensures
            r@ == data@,
            r.spec_pos() == 0,
            r.spec_limit() == data@.len(),
            r.wf(),
    {
        let limit = data.len();
        ReadStream { data, pos: 0, limit }
    }

    /// A read stream over the byte range `[pos, limit)` of the same buffer.
    pub fn sub_view(&self, pos: usize, limit: usize) -> (r: ReadStream)
        requires
            limit <= self@.len(),
        ensures
            r@ == self@,
            r.spec_pos() == pos,
            r.spec_limit() == limit,
            r.wf(),
    {
        ReadStream { data: self.data.clone(), pos, limit }
    }

    /// Read one byte.
    pub fn read(&mut self) -> (r: Result<u8, OdsError>)
        requires
            old(self).wf(),
        ensures
            final(self)@ == old(self)@,
            final(self).spec_limit() == old(self).spec_limit(),
            final(self).wf(),
            match r {
                Ok(b) => old(self).spec_pos() < old(self).spec_limit() && b == old(self)@[old(self).spec_pos()] && final(self).spec_pos() == old(self).spec_pos() + 1,
                Err(e) => e == OdsError::UnexpectedEof && old(self).spec_pos() >= old(self).spec_limit() && *final(self) == *old(self),
            },
    {
        match read_byte_at(&self.data, self.pos, self.limit) {
            Ok(b) => {
                self.pos = self.pos + 1;
                Ok(b)
            },
            Err(e) => Err(e),
        }
    }

    /// Read exactly `n` bytes into a fresh vector.
    pub fn read_vec(&mut self, n: usize) -> (r: Result<Vec<u8>, OdsError>)
        requires
            old(self).wf(),
        ensures
            final(self)@ == old(self)@,
            final(self).spec_limit() == old(self).spec_limit(),
            final(self).wf(),
            match r {
                Ok(v) => old(self).spec_pos() + n <= old(self).spec_limit() && v@ == old(self)@.subrange(old(self).spec_pos(), old(self).spec_pos() + n) && final(self).spec_pos() == old(self).spec_pos() + n,
                Err(e) => e == OdsError::UnexpectedEof && old(self).spec_pos() + n > old(self).spec_limit() && *final(self) == *old(self),
            },
    {
        match read_range(&self.data, self.pos, n, self.limit) {
            Ok(v) => {
                self.pos = self.pos + n;
                Ok(v)
            },
            Err(e) => Err(e),
        }
    }

    /// Read exactly `n` bytes and decode them as UTF-8.
    pub fn read_string(&mut self, n: usize) -> (r: Result<String, OdsError>)
        requires
            old(self).wf(),
        ensures
            final(self)@ == old(self)@,
            final(self).spec_limit() == old(self).spec_limit(),
            final(self).wf(),
            match r {
                Ok(s) => old(self).spec_pos() + n <= old(self).spec_limit()
                    && vstd::utf8::valid_utf8(
                    old(self)@.subrange(old(self).spec_pos(), old(self).spec_pos() + n),
                ) && s@ == vstd::utf8::decode_utf8(
                    old(self)@.subrange(old(self).spec_pos(), old(self).spec_pos() + n),
                ) && final(self).spec_pos() == old(self).spec_pos() + n,
                Err(e) => *final(self) == *old(self) && (if old(self).spec_pos() + n > old(self).spec_limit() {
                    e == OdsError::UnexpectedEof
                } else {
                    e == OdsError::DecodeError && !vstd::utf8::valid_utf8(
                        old(self)@.subrange(old(self).spec_pos(), old(self).spec_pos() + n),
                    )
                }),
            },
    {
        match read_range(&self.data, self.pos, n, self.limit) {
            Ok(v) => {
                match bytes_to_string(v) {
                    Some(s) => {
                        self.pos = self.pos + n;
                        Ok(s)
                    },
                    None => Err(OdsError::DecodeError),
                }
            },
            Err(e) => Err(e),
        }
    }

    /// Read a big-endian signed 16-bit value.
    pub fn read_i16(&mut self) -> (r: Result<i16, OdsError>)
        requires
            old(self).wf(),
        ensures
            final(self)@ == old(self)@,
            final(self).spec_limit() == old(self).spec_limit(),
            final(self).wf(),
            match r {
                Ok(v) => old(self).spec_pos() + 2 <= old(self).spec_limit() && v as int == be_i16(
                    old(self)@.subrange(old(self).spec_pos(), old(self).spec_pos() + 2),
                ) && final(self).spec_pos() == old(self).spec_pos() + 2,
                Err(e) => e == OdsError::UnexpectedEof && old(self).spec_pos() + 2 > old(self).spec_limit() && *final(self) == *old(self),
            },
    {
        match read_u16_at(&self.data, self.pos, self.limit) {
            Ok(u) => {
                self.pos = self.pos + 2;
                Ok(u16_to_i16_val(u))
            },
            Err(e) => Err(e),
        }
    }

    /// Read a big-endian signed 32-bit value.
    pub fn read_i32(&mut self) -> (r: Result<i32, OdsError>)
        requires
            old(self).wf(),
        ensures
            final(self)@ == old(self)@,
            final(self).spec_limit() == old(self).spec_limit(),
            final(self).wf(),
            match r {
                Ok(v) => old(self).spec_pos() + 4 <= old(self).spec_limit() && v as int == be_i32(
                    old(self)@.subrange(old(self).spec_pos(), old(self).spec_pos() + 4),
                ) && final(self).spec_pos() == old(self).spec_pos() + 4,
                Err(e) => e == OdsError::UnexpectedEof && old(self).spec_pos() + 4 > old(self).spec_limit() && *final(self) == *old(self),
            },
    {
        match read_u32_at(&self.data, self.pos, self.limit) {
            Ok(u) => {
                self.pos = self.pos + 4;
                Ok(u32_to_i32_val(u))
            },
            Err(e) => Err(e),
        }
    }

    /// Read a big-endian signed 64-bit value.
    pub fn read_i64(&mut self) -> (r: Result<i64, OdsError>)
        requires
            old(self).wf(),
        ensures
            final(self)@ == old(self)@,
            final(self).spec_limit() == old(self).spec_limit(),
            final(self).wf(),
            match r {
                Ok(v) => old(self).spec_pos() + 8 <= old(self).spec_limit() && v as int == be_i64(
                    old(self)@.subrange(old(self).spec_pos(), old(self).spec_pos() + 8),
                ) && final(self).spec_pos() == old(self).spec_pos() + 8,
                Err(e) => e == OdsError::UnexpectedEof && old(self).spec_pos() + 8 > old(self).spec_limit() && *final(self) == *old(self),
            },
    {
        match read_u64_at(&self.data, self.pos, self.limit) {
            Ok(u) => {
                self.pos = self.pos + 8;
                Ok(u64_to_i64_val(u))
            },
            Err(e) => Err(e),
        }
    }

    /// Read one byte widened to a character.
    pub fn read_char(&mut self) -> (r: Result<char, OdsError>)
        requires
            old(self).wf(),
        ensures
            final(self)@ == old(self)@,
            final(self).spec_limit() == old(self).spec_limit(),
            final(self).wf(),
            match r {
                Ok(c) => old(self).spec_pos() < old(self).spec_limit() && c == (old(self)@[old(self).spec_pos()] as char) && final(self).spec_pos() == old(self).spec_pos() + 1,
                Err(e) => e == OdsError::UnexpectedEof && old(self).spec_pos() >= old(self).spec_limit() && *final(self) == *old(self),
            },
    {
        match self.read() {
            Ok(b) => Ok(b as char),
            Err(e) => Err(e),
        }
    }

    /// Read the big-endian bit pattern of a 32-bit floating-point value.
    pub fn read_f32_bits(&mut self) -> (r: Result<u32, OdsError>)
        requires
            old(self).wf(),
        ensures
            final(self)@ == old(self)@,
            final(self).spec_limit() == old(self).spec_limit(),
            final(self).wf(),
            match r {
                Ok(v) => old(self).spec_pos() + 4 <= old(self).spec_limit() && v as int == be_u32(
                    old(self)@.subrange(old(self).spec_pos(), old(self).spec_pos() + 4),
                ) && final(self).spec_pos() == old(self).spec_pos() + 4,
                Err(e) => e == OdsError::UnexpectedEof && old(self).spec_pos() + 4 > old(
                    self,
                ).spec_limit() && *final(self) == *old(self),
            },
    {
        match read_u32_at(&self.data, self.pos, self.limit) {
            Ok(u) => {
                self.pos = self.pos + 4;
                Ok(u)
            },
            Err(e) => Err(e),
        }
    }

    /// Read the big-endian bit pattern of a 64-bit floating-point value.
    pub fn read_f64_bits(&mut self) -> (r: Result<u64, OdsError>)
        requires
            old(self).wf(),
        ensures
            final(self)@ == old(self)@,
            final(self).spec_limit() == old(self).spec_limit(),
            final(self).wf(),
            match r {
                Ok(v) => old(self).spec_pos() + 8 <= old(self).spec_limit() && v as int == be_u64(
                    old(self)@.subrange(old(self).spec_pos(), old(self).spec_pos() + 8),
                ) && final(self).spec_pos() == old(self).spec_pos() + 8,
                Err(e) => e == OdsError::UnexpectedEof && old(self).spec_pos() + 8 > old(
                    self,
                ).spec_limit() && *final(self) == *old(self),
            },
    {
        match read_u64_at(&self.data, self.pos, self.limit) {
            Ok(u) => {
                self.pos = self.pos + 8;
                Ok(u)
            },
            Err(e) => Err(e),
        }
    }

    /// Move the cursor to an absolute position.
    pub fn set_position(&mut self, position: usize)
        ensures
            final(self)@ == old(self)@,
            final(self).spec_limit() == old(self).spec_limit(),
            final(self).wf() == old(self).wf(),
            final(self).spec_pos() == position,
    {
        self.pos = position;
    }

    /// Advance the cursor without reading.
    pub fn skip(&mut self, skip_amount: usize)
        requires
            old(self).spec_pos() + skip_amount <= usize::MAX,
        ensures
            final(self)@ == old(self)@,
            final(self).spec_limit() == old(self).spec_limit(),
            final(self).wf() == old(self).wf(),
            final(self).spec_pos() == old(self).spec_pos() + skip_amount,
    {
        self.pos = self.pos + skip_amount;
    }

    /// The read limit.
    pub fn size(&self) -> (r: usize)
        ensures
            r as int == self.spec_limit(),
    {
        self.limit
    }

    /// The cursor position.
    pub fn position(&self) -> (r: usize)
        ensures
            r as int == self.spec_pos(),
    {
        self.pos
    }

    /// Whether the cursor is strictly before the read limit.
    pub fn can_read_more(&self) -> (r: bool)
        ensures
            r == (self.spec_pos() < self.spec_limit()),
    {
        self.pos < self.limit
    }

    /// Move the cursor to the read limit.
    pub fn goto_end(&mut self)
        ensures
            final(self)@ == old(self)@,
            final(self).spec_limit() == old(self).spec_limit(),
            final(self).wf() == old(self).wf(),
            final(self).spec_pos() == old(self).spec_limit(),
    {
        self.pos = self.limit;
    }

    /// A copy of the whole underlying buffer, independent of the cursor and
    /// the read limit.
    pub fn bytes(&self) -> (r: Vec<u8>)
        ensures
            r@ == self@,
    {
        let limit = self.data.len();
        match read_range(&self.data, 0, limit, limit) {
            Ok(v) => {
                assert(v@ =~= self@);
                v
            },
            Err(_) => {
                // Unreachable: the whole range is always readable.
                assert(false);
                Vec::new()
            },
        }
    }
}

// ---------------------------------------------------------------------------
// WriteStream: a write-only cursor
// ---------------------------------------------------------------------------

/// A write-only cursor over a growable buffer.
#[derive(Clone, Debug)]
pub struct WriteStream {
    pub data: Vec<u8>,
    pub pos: usize,
}

impl View for WriteStream {
    type V = Seq<u8>;

    open spec fn view(&self) -> Seq<u8> {
        self.data@
    }
}

impl WriteStream {
    /// The cursor position.
    pub open spec fn spec_pos(self) -> int {
        self.pos as int
    }

    /// A write stream with no data, positioned at the start.
    pub fn new() -> (r: WriteStream)
        ensures
            r@ == Seq::<u8>::empty(),
            r.spec_pos() == 0,
    {
        WriteStream { data: Vec::new(), pos: 0 }
    }

    /// A write stream over existing data, positioned at its end.
    pub fn new_with_data(data: Vec<u8>) -> (r: WriteStream)
        ensures
            r@ == data@,
            r.spec_pos() == data@.len(),
    {
        let pos = data.len();
        WriteStream { data, pos }
    }

    /// Write one byte at the cursor, overwriting or growing.
    pub fn write(&mut self, byte: u8)
        requires
            old(self).spec_pos() + 1 <= usize::MAX,
        ensures
            final(self)@ == write_bytes_at(old(self)@, old(self).spec_pos(), seq![byte]),
            final(self).spec_pos() == old(self).spec_pos() + 1,
    {
        let mut v: Vec<u8> = Vec::new();
        v.push(byte);
        assert(v@ =~= seq![byte]);
        self.pos = write_all(&mut self.data, self.pos, &v);
    }

    /// Write a vector of bytes at the cursor.
    pub fn write_vec(&mut self, bytes: Vec<u8>)
        requires
            old(self).spec_pos() + bytes@.len() <= usize::MAX,
        ensures
            final(self)@ == write_bytes_at(old(self)@, old(self).spec_pos(), bytes@),
            final(self).spec_pos() == old(self).spec_pos() + bytes@.len(),
    {
        self.pos = write_all(&mut self.data, self.pos, &bytes);
    }

    /// Write a big-endian signed 16-bit value.
    pub fn write_i16(&mut self, short: i16)
        requires
            old(self).spec_pos() + 2 <= usize::MAX,
        ensures
            final(self)@ == write_bytes_at(
                old(self)@,
                old(self).spec_pos(),
                u16_be_bytes(i16_as_u16(short)),
            ),
            final(self).spec_pos() == old(self).spec_pos() + 2,
    {
        let v = u16_to_be(i16_to_u16_val(short));
        self.pos = write_all(&mut self.data, self.pos, &v);
    }

    /// Write a big-endian signed 32-bit value.
    pub fn write_i32(&mut self, int_val: i32)
        requires
            old(self).spec_pos() + 4 <= usize::MAX,
        ensures
            final(self)@ == write_bytes_at(
                old(self)@,
                old(self).spec_pos(),
                u32_be_bytes(i32_as_u32(int_val)),
            ),
            final(self).spec_pos() == old(self).spec_pos() + 4,
    {
        let v = u32_to_be(i32_to_u32_val(int_val));
        self.pos = write_all(&mut self.data, self.pos, &v);
    }

    /// Write a big-endian signed 64-bit value.
    pub fn write_i64(&mut self, long: i64)
        requires
            old(self).spec_pos() + 8 <= usize::MAX,
        ensures
            final(self)@ == write_bytes_at(
                old(self)@,
                old(self).spec_pos(),
                u64_be_bytes(i64_as_u64(long)),
            ),
            final(self).spec_pos() == old(self).spec_pos() + 8,
    {
        let v = u64_to_be(i64_to_u64_val(long));
        self.pos = write_all(&mut self.data, self.pos, &v);
    }

    /// Write a character's low byte.
    pub fn write_char(&mut self, character: char)
        requires
            old(self).spec_pos() + 1 <= usize::MAX,
        ensures
            final(self)@ == write_bytes_at(
                old(self)@,
                old(self).spec_pos(),
                seq![(character as u32 % 0x100) as u8],
            ),
            final(self).spec_pos() == old(self).spec_pos() + 1,
    {
        let code = character as u32;
        self.write((code % 0x100) as u8);
    }

    /// Write a string's UTF-8 bytes.
    pub fn write_string(&mut self, string: String)
        requires
            old(self).spec_pos() + vstd::utf8::encode_utf8(string@).len() <= usize::MAX,
        ensures
            final(self)@ == write_bytes_at(
                old(self)@,
                old(self).spec_pos(),
                vstd::utf8::encode_utf8(string@),
            ),
            final(self).spec_pos() == old(self).spec_pos() + vstd::utf8::encode_utf8(string@).len(),
    {
        let v = string.as_str().as_bytes_vec();
        self.pos = write_all(&mut self.data, self.pos, &v);
    }

    /// Write the big-endian bit pattern of a 32-bit floating-point value.
    pub fn write_f32_bits(&mut self, bits: u32)
        requires
            old(self).spec_pos() + 4 <= usize::MAX,
        ensures
            final(self)@ == write_bytes_at(old(self)@, old(self).spec_pos(), u32_be_bytes(bits)),
            final(self).spec_pos() == old(self).spec_pos() + 4,
    {
        let v = u32_to_be(bits);
        self.pos = write_all(&mut self.data, self.pos, &v);
    }

    /// Write the big-endian bit pattern of a 64-bit floating-point value.
    pub fn write_f64_bits(&mut self, bits: u64)
        requires
            old(self).spec_pos() + 8 <= usize::MAX,
        ensures
            final(self)@ == write_bytes_at(old(self)@, old(self).spec_pos(), u64_be_bytes(bits)),
            final(self).spec_pos() == old(self).spec_pos() + 8,
    {
        let v = u64_to_be(bits);
        self.pos = write_all(&mut self.data, self.pos, &v);
    }

    /// Move the cursor to an absolute position.
    pub fn set_position(&mut self, position: usize)
        ensures
            final(self)@ == old(self)@,
            final(self).spec_pos() == position,
    {
        self.pos = position;
    }

    /// Advance the cursor without writing.
    pub fn skip(&mut self, skip_amount: usize)
        requires
            old(self).spec_pos() + skip_amount <= usize::MAX,
        ensures
            final(self)@ == old(self)@,
            final(self).spec_pos() == old(self).spec_pos() + skip_amount,
    {
        self.pos = self.pos + skip_amount;
    }

    /// The number of bytes in the buffer.
    pub fn size(&self) -> (r: usize)
        ensures
            r == self@.len(),
    {
        self.data.len()
    }

    /// The cursor position.
    pub fn position(&self) -> (r: usize)
        ensures
            r as int == self.spec_pos(),
    {
        self.pos
    }

    /// Whether the cursor is strictly before the end of the buffer.
    pub fn can_read_more(&self) -> (r: bool)
        ensures
            r == (self.spec_pos() < self@.len()),
    {
        self.pos < self.data.len()
    }

    /// Move the cursor to the end of the buffer.
    pub fn goto_end(&mut self)
        ensures
            final(self)@ == old(self)@,
            final(self).spec_pos() == old(self)@.len(),
    {
        self.pos = self.data.len();
    }

    /// A copy of the whole buffer, independent of the cursor.
    pub fn bytes(&self) -> (r: Vec<u8>)
        ensures
            r@ == self@,
    {
        let limit = self.data.len();
        match read_range(&self.data, 0, limit, limit) {
            Ok(v) => {
                assert(v@ =~= self@);
                v
            },
            Err(_) => {
                // Unreachable: the whole range is always readable.
                assert(false);
                Vec::new()
            },
        }
    }
}

} // verus!

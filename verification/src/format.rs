//! The mathematical model of the on-disk format.
//!
//! A buffer is a concatenation of records. Each record is laid out as
//! `[type: u8][body size: u32 BE][name length: i16 BE][name][value]`, where the
//! body size counts the name-length field, the name and the value, but not the
//! type byte nor the size field itself; a record's full footprint is therefore
//! `5 + body size` bytes. The spec functions here define big-endian integer
//! coding, record encoding and decoding, the path scan that underlies lookup,
//! deletion and replacement, and the byte-splicing operations used by the
//! mutation engine.

use vstd::prelude::*;

use crate::error::OdsError;

verus! {

// ---------------------------------------------------------------------------
// Big-endian integer coding
// ---------------------------------------------------------------------------

/// The unsigned value of two big-endian bytes.
pub open spec fn be_u16(b: Seq<u8>) -> int
    recommends
        b.len() == 2,
{
    (b[0] as int) * 0x100 + (b[1] as int)
}

/// The signed (two's complement) value of two big-endian bytes.
pub open spec fn be_i16(b: Seq<u8>) -> int
    recommends
        b.len() == 2,
{
    if be_u16(b) < 0x8000 {
        be_u16(b)
    } else {
        be_u16(b) - 0x1_0000
    }
}

/// The unsigned value of four big-endian bytes.
pub open spec fn be_u32(b: Seq<u8>) -> int
    recommends
        b.len() == 4,
{
    (b[0] as int) * 0x100_0000 + (b[1] as int) * 0x1_0000 + (b[2] as int) * 0x100 + (b[3] as int)
}

/// The signed (two's complement) value of four big-endian bytes.
pub open spec fn be_i32(b: Seq<u8>) -> int
    recommends
        b.len() == 4,
{
    if be_u32(b) < 0x8000_0000 {
        be_u32(b)
    } else {
        be_u32(b) - 0x1_0000_0000
    }
}

/// The unsigned value of eight big-endian bytes.
pub open spec fn be_u64(b: Seq<u8>) -> int
    recommends
        b.len() == 8,
{
    (b[0] as int) * 0x100_0000_0000_0000 + (b[1] as int) * 0x1_0000_0000_0000 + (b[2] as int)
        * 0x100_0000_0000 + (b[3] as int) * 0x1_0000_0000 + (b[4] as int) * 0x100_0000 + (
    b[5] as int) * 0x1_0000 + (b[6] as int) * 0x100 + (b[7] as int)
}

/// The signed (two's complement) value of eight big-endian bytes.
pub open spec fn be_i64(b: Seq<u8>) -> int
    recommends
        b.len() == 8,
{
    if be_u64(b) < 0x8000_0000_0000_0000 {
        be_u64(b)
    } else {
        be_u64(b) - 0x1_0000_0000_0000_0000
    }
}

/// The two big-endian bytes of an unsigned 16-bit value.
pub open spec fn u16_be_bytes(x: u16) -> Seq<u8> {
    seq![(x / 0x100) as u8, (x % 0x100) as u8]
}

/// The four big-endian bytes of an unsigned 32-bit value.
pub open spec fn u32_be_bytes(x: u32) -> Seq<u8> {
    seq![
        (x / 0x100_0000) as u8,
        ((x / 0x1_0000) % 0x100) as u8,
        ((x / 0x100) % 0x100) as u8,
        (x % 0x100) as u8,
    ]
}

/// The eight big-endian bytes of an unsigned 64-bit value.
pub open spec fn u64_be_bytes(x: u64) -> Seq<u8> {
    seq![
        (x / 0x100_0000_0000_0000) as u8,
        ((x / 0x1_0000_0000_0000) % 0x100) as u8,
        ((x / 0x100_0000_0000) % 0x100) as u8,
        ((x / 0x1_0000_0000) % 0x100) as u8,
        ((x / 0x100_0000) % 0x100) as u8,
        ((x / 0x1_0000) % 0x100) as u8,
        ((x / 0x100) % 0x100) as u8,
        (x % 0x100) as u8,
    ]
}

/// The unsigned 16-bit pattern that stores a signed 16-bit value.
pub open spec fn i16_as_u16(x: i16) -> u16 {
    if x >= 0 {
        x as u16
    } else {
        (x + 0x1_0000) as u16
    }
}

/// The unsigned 32-bit pattern that stores a signed 32-bit value.
pub open spec fn i32_as_u32(x: i32) -> u32 {
    if x >= 0 {
        x as u32
    } else {
        (x + 0x1_0000_0000) as u32
    }
}

/// The unsigned 64-bit pattern that stores a signed 64-bit value.
pub open spec fn i64_as_u64(x: i64) -> u64 {
    if x >= 0 {
        x as u64
    } else {
        (x + 0x1_0000_0000_0000_0000) as u64
    }
}

pub proof fn lemma_be_u16_roundtrip(x: u16)
    ensures
        be_u16(u16_be_bytes(x)) == x,
{
    assert((x / 0x100) as int * 0x100 + (x % 0x100) as int == x) by (bit_vector);
}

pub proof fn lemma_be_u32_roundtrip(x: u32)
    ensures
        be_u32(u32_be_bytes(x)) == x,
{
    assert((x / 0x100_0000) as int * 0x100_0000 + ((x / 0x1_0000) % 0x100) as int * 0x1_0000 + ((x
        / 0x100) % 0x100) as int * 0x100 + (x % 0x100) as int == x) by (bit_vector);
}

pub proof fn lemma_be_u64_roundtrip(x: u64)
    ensures
        be_u64(u64_be_bytes(x)) == x,
{
    assert((x / 0x100_0000_0000_0000) as int * 0x100_0000_0000_0000 + ((x / 0x1_0000_0000_0000)
        % 0x100) as int * 0x1_0000_0000_0000 + ((x / 0x100_0000_0000) % 0x100) as int
        * 0x100_0000_0000 + ((x / 0x1_0000_0000) % 0x100) as int * 0x1_0000_0000 + ((x / 0x100_0000)
        % 0x100) as int * 0x100_0000 + ((x / 0x1_0000) % 0x100) as int * 0x1_0000 + ((x / 0x100)
        % 0x100) as int * 0x100 + (x % 0x100) as int == x) by (bit_vector);
}

// ---------------------------------------------------------------------------
// Records
// ---------------------------------------------------------------------------

/// A decoded record header plus its raw name and value bytes.
pub ghost struct GRec {
    pub ty: u8,
    pub name: Seq<u8>,
    pub value: Seq<u8>,
}

impl GRec {
    /// The value of this record's body-size field: name-length field plus name
    /// plus value.
    pub open spec fn body_size(self) -> int {
        2 + self.name.len() as int + self.value.len() as int
    }

    /// A record that the format can actually store: the name length fits the
    /// signed 16-bit field and the body size fits the signed 32-bit reads the
    /// decoder performs.
    pub open spec fn wf(self) -> bool {
        self.name.len() <= 0x7FFF && self.body_size() <= 0x7FFF_FFFF
    }

    /// The full on-disk encoding of this record.
    pub open spec fn enc(self) -> Seq<u8> {
        seq![self.ty] + u32_be_bytes(self.body_size() as u32) + u16_be_bytes(self.name.len() as u16)
            + self.name + self.value
    }
}

/// The record whose header begins at offset `lo` of `b`. Meaningful only when
/// the bytes at `lo` really carry a record that fits, as the scan functions
/// ensure.
pub open spec fn rec_at(b: Seq<u8>, lo: int) -> GRec {
    let size = be_i32(b.subrange(lo + 1, lo + 5));
    let nlen = be_i16(b.subrange(lo + 5, lo + 7));
    GRec {
        ty: b[lo],
        name: b.subrange(lo + 7, lo + 7 + nlen),
        value: b.subrange(lo + 7 + nlen, lo + 5 + size),
    }
}

// ---------------------------------------------------------------------------
// The path scan
// ---------------------------------------------------------------------------

/// One matched record: the offset of its type byte and the value of its
/// body-size field.
pub ghost struct GHit {
    pub start: int,
    pub size: int,
}

/// How a scan ended.
pub ghost enum GOutcome {
    /// The path resolved; the hit is the terminal record.
    Hit(GHit),
    /// Some level ran out of records without a match: a normal absence.
    Absent,
    /// The bytes could not be interpreted.
    Fail(OdsError),
}

/// The result of scanning for a path: the chain of matched ancestor
/// containers, in root-to-parent order, and the outcome at the last level the
/// scan reached. The chain is partial when the outcome is not a hit.
pub ghost struct GScan {
    pub chain: Seq<GHit>,
    pub outcome: GOutcome,
}

/// Scan the byte range `[lo, hi)` of `b` for the path `segs[k..]`, exactly as
/// the resolver does: records are visited left to right; a record whose name
/// length differs from the current segment's length is skipped without reading
/// its name; on a name match the scan either stops (last segment) or descends
/// into the record's value bytes with the next segment.
pub open spec fn scan_path(b: Seq<u8>, lo: int, hi: int, segs: Seq<Seq<u8>>, k: int) -> GScan
    recommends
        0 <= lo,
        hi <= b.len(),
        0 <= k < segs.len(),
    decreases segs.len() - k, hi - lo,
        when 0 <= k < segs.len() && lo <= hi
{
    let seg = segs[k];
    if lo >= hi {
        GScan { chain: seq![], outcome: GOutcome::Absent }
    } else if lo + 7 > hi {
        GScan { chain: seq![], outcome: GOutcome::Fail(OdsError::UnexpectedEof) }
    } else {
        let size = be_i32(b.subrange(lo + 1, lo + 5));
        let nlen = be_i16(b.subrange(lo + 5, lo + 7));
        if size < 2 {
            GScan { chain: seq![], outcome: GOutcome::Fail(OdsError::DecodeError) }
        } else if nlen == seg.len() && lo + 7 + nlen > hi {
            GScan { chain: seq![], outcome: GOutcome::Fail(OdsError::UnexpectedEof) }
        } else if nlen == seg.len() && b.subrange(lo + 7, lo + 7 + nlen) == seg {
            if lo + 5 + size > hi {
                GScan { chain: seq![], outcome: GOutcome::Fail(OdsError::UnexpectedEof) }
            } else if size < nlen + 2 {
                GScan { chain: seq![], outcome: GOutcome::Fail(OdsError::DecodeError) }
            } else if k == segs.len() - 1 {
                GScan { chain: seq![], outcome: GOutcome::Hit(GHit { start: lo, size: size }) }
            } else {
                let inner = scan_path(b, lo + 7 + nlen, lo + 5 + size, segs, k + 1);
                GScan {
                    chain: seq![GHit { start: lo, size: size }] + inner.chain,
                    outcome: inner.outcome,
                }
            }
        } else {
            // No match: skip to this record's end and keep scanning. A skip
            // that lands at or past the limit ends the level.
            let next = if lo + 5 + size > hi {
                hi
            } else {
                lo + 5 + size
            };
            scan_path(b, next, hi, segs, k)
        }
    }
}

/// Every record a scan matches lies inside the range it was scanned in, its
/// body size is a positive signed 32-bit value, and a terminal hit lies inside
/// each matched ancestor's value bytes, strictly after that ancestor's header.
pub proof fn lemma_scan_path_props(b: Seq<u8>, lo: int, hi: int, segs: Seq<Seq<u8>>, k: int)
    requires
        0 <= lo <= hi <= b.len(),
        0 <= k < segs.len(),
    ensures
        ({
            let sc = scan_path(b, lo, hi, segs, k);
            &&& (forall|i: int|
                0 <= i < sc.chain.len() ==> {
                    let c = #[trigger] sc.chain[i];
                    &&& lo <= c.start
                    &&& 2 <= c.size <= 0x7FFF_FFFF
                    &&& c.start + 5 + c.size <= hi
                })
            &&& (forall|i: int|
                0 <= i < sc.chain.len() - 1 ==> (#[trigger] sc.chain[i]).start + 7 <= sc.chain[i
                    + 1].start)
            &&& (sc.outcome matches GOutcome::Hit(h) ==> {
                &&& lo <= h.start
                &&& 2 <= h.size <= 0x7FFF_FFFF
                &&& h.start + 5 + h.size <= hi
                &&& (forall|i: int|
                    0 <= i < sc.chain.len() ==> ((#[trigger] sc.chain[i]).start + 7 <= h.start
                        && h.start + 5 + h.size <= sc.chain[i].start + 5 + sc.chain[i].size))
            })
        }),
    decreases segs.len() - k, hi - lo,
{
    let sc = scan_path(b, lo, hi, segs, k);
    let seg = segs[k];
    if lo >= hi {
    } else if lo + 7 > hi {
    } else {
        let size = be_i32(b.subrange(lo + 1, lo + 5));
        let nlen = be_i16(b.subrange(lo + 5, lo + 7));
        if size < 2 {
        } else if nlen == seg.len() && lo + 7 + nlen > hi {
        } else if nlen == seg.len() && b.subrange(lo + 7, lo + 7 + nlen) == seg {
            if lo + 5 + size > hi {
            } else if size < nlen + 2 {
            } else if k == segs.len() - 1 {
                assert(size <= 0x7FFF_FFFF) by {
                    assert(be_u32(b.subrange(lo + 1, lo + 5)) < 0x1_0000_0000);
                }
            } else {
                lemma_scan_path_props(b, lo + 7 + nlen, lo + 5 + size, segs, k + 1);
                let inner = scan_path(b, lo + 7 + nlen, lo + 5 + size, segs, k + 1);
                assert(size <= 0x7FFF_FFFF) by {
                    assert(be_u32(b.subrange(lo + 1, lo + 5)) < 0x1_0000_0000);
                }
                assert(sc.chain == seq![GHit { start: lo, size: size }] + inner.chain);
                assert forall|i: int| 0 <= i < sc.chain.len() implies {
                    let c = #[trigger] sc.chain[i];
                    &&& lo <= c.start
                    &&& 2 <= c.size <= 0x7FFF_FFFF
                    &&& c.start + 5 + c.size <= hi
                } by {
                    if i > 0 {
                        assert(sc.chain[i] == inner.chain[i - 1]);
                    }
                }
                assert forall|i: int|
                    0 <= i < sc.chain.len() - 1 implies (#[trigger] sc.chain[i]).start + 7
                    <= sc.chain[i + 1].start by {
                    assert(sc.chain[i + 1] == inner.chain[i]);
                    if i > 0 {
                        assert(sc.chain[i] == inner.chain[i - 1]);
                    }
                }
                match sc.outcome {
                    GOutcome::Hit(h) => {
                        assert forall|i: int|
                            0 <= i < sc.chain.len() implies ((#[trigger] sc.chain[i]).start + 7
                            <= h.start && h.start + 5 + h.size <= sc.chain[i].start + 5
                            + sc.chain[i].size) by {
                            if i > 0 {
                                assert(sc.chain[i] == inner.chain[i - 1]);
                            }
                        }
                    },
                    _ => {},
                }
            }
        } else {
            let next = if lo + 5 + size > hi {
                hi
            } else {
                lo + 5 + size
            };
            lemma_scan_path_props(b, next, hi, segs, k);
        }
    }
}

// ---------------------------------------------------------------------------
// Decoding a record into a tag
// ---------------------------------------------------------------------------

/// The model of a tag value: one of the nine concrete kinds. Floating-point
/// values are carried as their IEEE 754 bit patterns, which is exactly what
/// the format stores.
pub ghost enum GValue {
    GStr(Seq<char>),
    GInt(i32),
    GFloat(u32),
    GDouble(u64),
    GShort(i16),
    GLong(i64),
    GChar(char),
    GByte(u8),
    GCont(Seq<u8>),
}

/// The model of a tag: a name and a value.
pub ghost struct GTag {
    pub name: Seq<char>,
    pub value: GValue,
}

/// The type byte written for each value kind.
pub open spec fn id_of(v: GValue) -> u8 {
    match v {
        GValue::GStr(_) => 1,
        GValue::GInt(_) => 2,
        GValue::GFloat(_) => 3,
        GValue::GDouble(_) => 4,
        GValue::GShort(_) => 5,
        GValue::GLong(_) => 6,
        GValue::GChar(_) => 7,
        GValue::GByte(_) => 8,
        GValue::GCont(_) => 9,
    }
}

/// The value bytes written for each value kind.
pub open spec fn value_enc(v: GValue) -> Seq<u8> {
    match v {
        GValue::GStr(s) => vstd::utf8::encode_utf8(s),
        GValue::GInt(x) => u32_be_bytes(i32_as_u32(x)),
        GValue::GFloat(bits) => u32_be_bytes(bits),
        GValue::GDouble(bits) => u64_be_bytes(bits),
        GValue::GShort(x) => u16_be_bytes(i16_as_u16(x)),
        GValue::GLong(x) => u64_be_bytes(i64_as_u64(x)),
        GValue::GChar(c) => seq![(c as u32 % 0x100) as u8],
        GValue::GByte(x) => seq![x],
        GValue::GCont(d) => d,
    }
}

/// Decode value bytes according to a type byte, exactly as the decoder does:
/// fixed-width kinds read their width from the front of the value bytes and
/// ignore any excess; strings decode every value byte as UTF-8; containers
/// keep their value bytes raw.
pub open spec fn decode_value(ty: u8, b: Seq<u8>) -> Result<GValue, OdsError> {
    if ty == 1 {
        if vstd::utf8::valid_utf8(b) {
            Ok(GValue::GStr(vstd::utf8::decode_utf8(b)))
        } else {
            Err(OdsError::DecodeError)
        }
    } else if ty == 2 {
        if b.len() >= 4 {
            Ok(GValue::GInt(be_i32(b.subrange(0, 4)) as i32))
        } else {
            Err(OdsError::UnexpectedEof)
        }
    } else if ty == 3 {
        if b.len() >= 4 {
            Ok(GValue::GFloat(be_u32(b.subrange(0, 4)) as u32))
        } else {
            Err(OdsError::UnexpectedEof)
        }
    } else if ty == 4 {
        if b.len() >= 8 {
            Ok(GValue::GDouble(be_u64(b.subrange(0, 8)) as u64))
        } else {
            Err(OdsError::UnexpectedEof)
        }
    } else if ty == 5 {
        if b.len() >= 2 {
            Ok(GValue::GShort(be_i16(b.subrange(0, 2)) as i16))
        } else {
            Err(OdsError::UnexpectedEof)
        }
    } else if ty == 6 {
        if b.len() >= 8 {
            Ok(GValue::GLong(be_i64(b.subrange(0, 8)) as i64))
        } else {
            Err(OdsError::UnexpectedEof)
        }
    } else if ty == 7 {
        if b.len() >= 1 {
            Ok(GValue::GChar(b[0] as char))
        } else {
            Err(OdsError::UnexpectedEof)
        }
    } else if ty == 8 {
        if b.len() >= 1 {
            Ok(GValue::GByte(b[0]))
        } else {
            Err(OdsError::UnexpectedEof)
        }
    } else if ty == 9 {
        Ok(GValue::GCont(b))
    } else {
        Err(OdsError::DecodeError)
    }
}

/// Decode a whole record into a tag: the name bytes as UTF-8, the value bytes
/// per the type byte.
pub open spec fn decode_rec(r: GRec) -> Result<GTag, OdsError> {
    if vstd::utf8::valid_utf8(r.name) {
        match decode_value(r.ty, r.value) {
            Ok(v) => Ok(GTag { name: vstd::utf8::decode_utf8(r.name), value: v }),
            Err(e) => Err(e),
        }
    } else {
        Err(OdsError::DecodeError)
    }
}

/// The record written for a tag.
pub open spec fn rec_of_tag(t: GTag) -> GRec {
    GRec { ty: id_of(t.value), name: vstd::utf8::encode_utf8(t.name), value: value_enc(t.value) }
}

/// A tag the format can store and read back: its record fits the on-disk
/// fields, and a character value fits the single byte it is stored in.
pub open spec fn wf_gtag(t: GTag) -> bool {
    &&& rec_of_tag(t).wf()
    &&& (t.value matches GValue::GChar(c) ==> c as u32 <= 255)
}

// ---------------------------------------------------------------------------
// Parsing a flat record list
// ---------------------------------------------------------------------------

/// Parse the byte range `[lo, hi)` of `b` as a flat concatenation of records,
/// with no descent into containers, exactly as the full-listing decoder does.
pub open spec fn parse_list(b: Seq<u8>, lo: int, hi: int) -> Result<Seq<GRec>, OdsError>
    recommends
        0 <= lo,
        hi <= b.len(),
    decreases hi - lo,
        when lo <= hi
{
    if lo >= hi {
        Ok(seq![])
    } else if lo + 7 > hi {
        Err(OdsError::UnexpectedEof)
    } else {
        let size = be_i32(b.subrange(lo + 1, lo + 5));
        let nlen = be_i16(b.subrange(lo + 5, lo + 7));
        if size < 2 || nlen < 0 || size < nlen + 2 {
            Err(OdsError::DecodeError)
        } else if lo + 5 + size > hi {
            Err(OdsError::UnexpectedEof)
        } else {
            match parse_list(b, lo + 5 + size, hi) {
                Ok(rest) => Ok(seq![rec_at(b, lo)] + rest),
                Err(e) => Err(e),
            }
        }
    }
}

// ---------------------------------------------------------------------------
// Splicing and size-field repair
// ---------------------------------------------------------------------------

/// `b` with the byte range `[lo, hi)` replaced by `repl`.
pub open spec fn splice(b: Seq<u8>, lo: int, hi: int, repl: Seq<u8>) -> Seq<u8>
    recommends
        0 <= lo <= hi <= b.len(),
{
    b.subrange(0, lo) + repl + b.subrange(hi, b.len() as int)
}

/// `b` with the four bytes at `i` overwritten by the big-endian bytes of `v`.
pub open spec fn store_be32_at(b: Seq<u8>, i: int, v: u32) -> Seq<u8>
    recommends
        0 <= i,
        i + 4 <= b.len(),
{
    b.subrange(0, i) + u32_be_bytes(v) + b.subrange(i + 4, b.len() as int)
}

/// `b` extended with zero bytes until it is at least `n` long.
pub open spec fn zero_pad(b: Seq<u8>, n: int) -> Seq<u8> {
    if b.len() >= n {
        b
    } else {
        b + Seq::new((n - b.len()) as nat, |i| 0u8)
    }
}

/// `b` with `w` written at offset `pos`, overwriting what is there and growing
/// the sequence as needed; a gap between the end of `b` and `pos` is filled
/// with zero bytes, as a seekable buffer does.
pub open spec fn write_bytes_at(b: Seq<u8>, pos: int, w: Seq<u8>) -> Seq<u8>
    recommends
        0 <= pos,
{
    let p = zero_pad(b, pos);
    p.subrange(0, pos) + w + (if p.len() > pos + w.len() {
        p.subrange(pos + w.len(), p.len() as int)
    } else {
        Seq::empty()
    })
}

/// Writing at the end of a buffer appends.
pub proof fn lemma_write_append(b: Seq<u8>, w: Seq<u8>)
    ensures
        write_bytes_at(b, b.len() as int, w) == b + w,
{
    assert(write_bytes_at(b, b.len() as int, w) =~= b + w);
}

/// Two consecutive writes are one write of the concatenation.
pub proof fn lemma_write_compose(b: Seq<u8>, pos: int, w1: Seq<u8>, w2: Seq<u8>)
    requires
        0 <= pos,
    ensures
        write_bytes_at(write_bytes_at(b, pos, w1), pos + w1.len(), w2) == write_bytes_at(
            b,
            pos,
            w1 + w2,
        ),
{
    let first = write_bytes_at(b, pos, w1);
    assert(first.len() >= pos + w1.len());
    assert(write_bytes_at(first, pos + w1.len(), w2) =~= write_bytes_at(b, pos, w1 + w2));
}

/// A size-field patch: the offset of a size field and the value to store.
pub ghost struct GPatch {
    pub at: int,
    pub size: u32,
}

/// Apply size-field patches left to right.
pub open spec fn apply_patches(b: Seq<u8>, ps: Seq<GPatch>) -> Seq<u8>
    decreases ps.len(),
{
    if ps.len() == 0 {
        b
    } else {
        apply_patches(store_be32_at(b, ps[0].at, ps[0].size), ps.skip(1))
    }
}

/// A tag with its name cleared, as list elements are stored.
pub open spec fn clear_name(t: GTag) -> GTag {
    GTag { name: Seq::empty(), value: t.value }
}

/// The concatenated encodings of a sequence of tags, each with an empty name:
/// the value bytes of a list container built from them.
pub open spec fn encode_children(ts: Seq<GTag>) -> Seq<u8>
    decreases ts.len(),
{
    if ts.len() == 0 {
        Seq::empty()
    } else {
        rec_of_tag(clear_name(ts[0])).enc() + encode_children(ts.subrange(1, ts.len() as int))
    }
}

#[verifier::rlimit(50)]
pub proof fn lemma_encode_children_snoc(ts: Seq<GTag>, i: int)
    requires
        0 <= i < ts.len(),
    ensures
        encode_children(ts.subrange(0, i + 1)) == encode_children(ts.subrange(0, i)) + rec_of_tag(
            clear_name(ts[i]),
        ).enc(),
    decreases i,
{
    let head = rec_of_tag(clear_name(ts[0])).enc();
    let last = rec_of_tag(clear_name(ts[i])).enc();
    if i == 0 {
        let one = ts.subrange(0, 1);
        assert(one[0] == ts[0]);
        assert(one.subrange(1, 1) =~= Seq::<GTag>::empty());
        assert(encode_children(one) == head + encode_children(Seq::<GTag>::empty()));
        assert(head + Seq::<u8>::empty() =~= head);
        assert(Seq::<u8>::empty() + head =~= head);
        assert(ts.subrange(0, 0) =~= Seq::<GTag>::empty());
    } else {
        let tail = ts.subrange(1, ts.len() as int);
        lemma_encode_children_snoc(tail, i - 1);
        let a = encode_children(tail.subrange(0, i - 1));
        // encode_children(tail[..i]) == a + last, with tail[i - 1] == ts[i].
        assert(tail[i - 1] == ts[i]);
        let u = ts.subrange(0, i + 1);
        let v = ts.subrange(0, i);
        assert(u[0] == ts[0]);
        assert(v[0] == ts[0]);
        assert(u.subrange(1, u.len() as int) =~= tail.subrange(0, i));
        assert(v.subrange(1, v.len() as int) =~= tail.subrange(0, i - 1));
        assert(encode_children(u) == head + (a + last));
        assert(encode_children(v) == head + a);
        assert(head + (a + last) =~= (head + a) + last);
    }
}

pub proof fn lemma_encode_children_prefix_len(ts: Seq<GTag>, i: int)
    requires
        0 <= i <= ts.len(),
    ensures
        encode_children(ts.subrange(0, i)).len() <= encode_children(ts).len(),
    decreases ts.len() - i,
{
    if i == ts.len() {
        assert(ts.subrange(0, i) =~= ts);
    } else {
        lemma_encode_children_snoc(ts, i);
        lemma_encode_children_prefix_len(ts, i + 1);
    }
}

/// The `n`-th record (by scan order) in the byte range `[lo, hi)` of `b`, or
/// `None` when fewer than `n + 1` records fit before the limit.
pub open spec fn nth_rec(b: Seq<u8>, lo: int, hi: int, n: int) -> Result<Option<GRec>, OdsError>
    recommends
        0 <= lo,
        hi <= b.len(),
    decreases hi - lo,
        when lo <= hi
{
    if lo >= hi {
        Ok(None)
    } else if lo + 7 > hi {
        Err(OdsError::UnexpectedEof)
    } else {
        let size = be_i32(b.subrange(lo + 1, lo + 5));
        let nlen = be_i16(b.subrange(lo + 5, lo + 7));
        if size < 2 || nlen < 0 || size < nlen + 2 {
            Err(OdsError::DecodeError)
        } else if lo + 5 + size > hi {
            Err(OdsError::UnexpectedEof)
        } else if n == 0 {
            Ok(Some(rec_at(b, lo)))
        } else {
            nth_rec(b, lo + 5 + size, hi, n - 1)
        }
    }
}

pub proof fn lemma_apply_patches_snoc(b: Seq<u8>, ps: Seq<GPatch>, i: int)
    requires
        0 <= i < ps.len(),
    ensures
        apply_patches(b, ps.subrange(0, i + 1)) == store_be32_at(
            apply_patches(b, ps.subrange(0, i)),
            ps[i].at,
            ps[i].size,
        ),
    decreases i,
{
    if i == 0 {
        let one = ps.subrange(0, 1);
        assert(one[0] == ps[0]);
        assert(one.subrange(1, 1) =~= Seq::<GPatch>::empty());
        assert(ps.subrange(0, 0) =~= Seq::<GPatch>::empty());
        assert(apply_patches(store_be32_at(b, ps[0].at, ps[0].size), one.subrange(1, 1))
            == store_be32_at(b, ps[0].at, ps[0].size));
    } else {
        let b1 = store_be32_at(b, ps[0].at, ps[0].size);
        let tail = ps.subrange(1, ps.len() as int);
        lemma_apply_patches_snoc(b1, tail, i - 1);
        let u = ps.subrange(0, i + 1);
        let v = ps.subrange(0, i);
        assert(u[0] == ps[0]);
        assert(v[0] == ps[0]);
        assert(u.subrange(1, u.len() as int) =~= tail.subrange(0, i));
        assert(v.subrange(1, v.len() as int) =~= tail.subrange(0, i - 1));
        assert(tail[i - 1] == ps[i]);
    }
}

/// Size-field patches preserve the buffer's length, and bytes below every
/// patch's offset are untouched.
pub proof fn lemma_apply_patches_below(b: Seq<u8>, ps: Seq<GPatch>, pos: int)
    requires
        0 <= pos,
        forall|j: int| 0 <= j < ps.len() ==> pos <= (#[trigger] ps[j]).at && ps[j].at + 4 <= b.len(),
    ensures
        apply_patches(b, ps).len() == b.len(),
        forall|k: int| 0 <= k < pos ==> apply_patches(b, ps)[k] == b[k],
    decreases ps.len(),
{
    if ps.len() == 0 {
    } else {
        let b1 = store_be32_at(b, ps[0].at, ps[0].size);
        assert(b1.len() == b.len());
        assert(forall|k: int| 0 <= k < pos ==> b1[k] == b[k]);
        let tail = ps.subrange(1, ps.len() as int);
        assert(forall|j: int|
            0 <= j < tail.len() ==> pos <= (#[trigger] tail[j]).at && tail[j].at + 4 <= b1.len());
        lemma_apply_patches_below(b1, tail, pos);
    }
}

/// After applying in-bounds patches at strictly increasing, disjoint offsets,
/// the four bytes at each patch's offset are that patch's stored value.
pub proof fn lemma_apply_patches_reads(b: Seq<u8>, ps: Seq<GPatch>, i: int)
    requires
        forall|j: int| 0 <= j < ps.len() ==> 0 <= (#[trigger] ps[j]).at && ps[j].at + 4 <= b.len(),
        forall|j: int| 0 <= j < ps.len() - 1 ==> (#[trigger] ps[j]).at + 4 <= ps[j + 1].at,
        0 <= i < ps.len(),
    ensures
        apply_patches(b, ps).len() == b.len(),
        apply_patches(b, ps).subrange(ps[i].at, ps[i].at + 4) == u32_be_bytes(ps[i].size),
    decreases i,
{
    let b1 = store_be32_at(b, ps[0].at, ps[0].size);
    assert(b1.len() == b.len());
    let tail = ps.subrange(1, ps.len() as int);
    assert forall|j: int|
        0 <= j < tail.len() - 1 implies (#[trigger] tail[j]).at + 4 <= tail[j + 1].at by {
        assert(tail[j] == ps[j + 1]);
        assert(tail[j + 1] == ps[j + 2]);
    }
    if i == 0 {
        assert(b1.subrange(ps[0].at, ps[0].at + 4) =~= u32_be_bytes(ps[0].size));
        // Later patches sit at or beyond the end of this patch's bytes.
        assert forall|j: int|
            0 <= j < tail.len() implies ps[0].at + 4 <= (#[trigger] tail[j]).at && tail[j].at + 4
            <= b1.len() by {
            assert(tail[j] == ps[j + 1]);
            if j > 0 {
                lemma_patch_offsets_sorted(ps, 1, j + 1);
            }
        }
        lemma_apply_patches_below(b1, tail, ps[0].at + 4);
        assert(apply_patches(b, ps).subrange(ps[i].at, ps[i].at + 4) =~= u32_be_bytes(ps[i].size));
    } else {
        assert(tail[i - 1] == ps[i]);
        lemma_apply_patches_reads(b1, tail, i - 1);
    }
}


/// Size-field patches leave every byte outside their regions unchanged.
pub proof fn lemma_apply_patches_frame(b: Seq<u8>, ps: Seq<GPatch>, pos: int)
    requires
        forall|j: int| 0 <= j < ps.len() ==> 0 <= (#[trigger] ps[j]).at && ps[j].at + 4 <= b.len(),
        0 <= pos < b.len(),
        forall|j: int| 0 <= j < ps.len() ==> !((#[trigger] ps[j]).at <= pos < ps[j].at + 4),
    ensures
        apply_patches(b, ps).len() == b.len(),
        apply_patches(b, ps)[pos] == b[pos],
    decreases ps.len(),
{
    if ps.len() == 0 {
    } else {
        let b1 = store_be32_at(b, ps[0].at, ps[0].size);
        assert(b1.len() == b.len());
        assert(b1[pos] == b[pos]);
        let tail = ps.subrange(1, ps.len() as int);
        lemma_apply_patches_frame(b1, tail, pos);
    }
}

// Sorted offsets are transitively ordered.
proof fn lemma_patch_offsets_sorted(ps: Seq<GPatch>, i: int, j: int)
    requires
        forall|k: int| 0 <= k < ps.len() - 1 ==> (#[trigger] ps[k]).at + 4 <= ps[k + 1].at,
        0 <= i <= j < ps.len(),
    ensures
        ps[i].at <= ps[j].at,
    decreases j - i,
{
    if i < j {
        lemma_patch_offsets_sorted(ps, i + 1, j);
    }
}


/// The offset of the `n`-th record in the list that begins at `lo`, assuming
/// the records before it parse.
pub open spec fn rec_off(b: Seq<u8>, lo: int, n: int) -> int
    decreases n,
        when n >= 0
{
    if n <= 0 {
        lo
    } else {
        rec_off(b, lo + 5 + be_i32(b.subrange(lo + 1, lo + 5)), n - 1)
    }
}

// ---------------------------------------------------------------------------
// Splitting a key into path segments
// ---------------------------------------------------------------------------

/// The byte that separates path segments: `'.'`.
pub open spec fn dot() -> u8 {
    0x2e
}

/// The index of the first `'.'` in `b`, or `b.len()` when there is none.
pub open spec fn first_dot(b: Seq<u8>) -> int
    decreases b.len(),
{
    if b.len() == 0 {
        0
    } else if b[0] == dot() {
        0
    } else {
        1 + first_dot(b.subrange(1, b.len() as int))
    }
}

/// The segments of `b`, split on `'.'`. An empty input yields one empty
/// segment, as splitting does.
pub open spec fn split_at_dots(b: Seq<u8>) -> Seq<Seq<u8>>
    decreases b.len(),
{
    let i = first_dot(b);
    if i < 0 || i >= b.len() {
        seq![b]
    } else {
        seq![b.subrange(0, i)] + split_at_dots(b.subrange(i + 1, b.len() as int))
    }
}

pub proof fn lemma_first_dot(b: Seq<u8>)
    ensures
        0 <= first_dot(b) <= b.len(),
        forall|j: int| 0 <= j < first_dot(b) ==> b[j] != dot(),
        first_dot(b) < b.len() ==> b[first_dot(b)] == dot(),
    decreases b.len(),
{
    if b.len() == 0 {
    } else if b[0] == dot() {
    } else {
        let sub = b.subrange(1, b.len() as int);
        lemma_first_dot(sub);
        assert forall|j: int| 0 <= j < first_dot(b) implies b[j] != dot() by {
            if j >= 1 {
                assert(b[j] == sub[j - 1]);
            }
        }
    }
}

pub proof fn lemma_split_at_dots_len(b: Seq<u8>)
    ensures
        split_at_dots(b).len() >= 1,
{
    lemma_first_dot(b);
}

/// `first_dot` is pinned down by its characteristic properties, so a scan that
/// establishes them has found it.
pub proof fn lemma_first_dot_unique(b: Seq<u8>, k: int)
    requires
        0 <= k <= b.len(),
        forall|j: int| 0 <= j < k ==> b[j] != dot(),
        k < b.len() ==> b[k] == dot(),
    ensures
        first_dot(b) == k,
{
    lemma_first_dot(b);
    if first_dot(b) < k {
        assert(b[first_dot(b)] == dot());
    } else if k < first_dot(b) {
        assert(b[k] != dot());
    }
}

/// The name a scouting pass records for a matched segment: the segment's
/// UTF-8 decoding when it has one, the empty string otherwise.
pub open spec fn seg_name(seg: Seq<u8>) -> Seq<char> {
    if vstd::utf8::valid_utf8(seg) {
        vstd::utf8::decode_utf8(seg)
    } else {
        Seq::empty()
    }
}

// ---------------------------------------------------------------------------
// Decoding a flat record list into tags
// ---------------------------------------------------------------------------

/// Decode the byte range `[lo, hi)` of `b` as a flat concatenation of records,
/// materializing every record as a tag, exactly as the full-listing decoder
/// does: it stops at the first record it cannot decode.
pub open spec fn decode_list(b: Seq<u8>, lo: int, hi: int) -> Result<Seq<GTag>, OdsError>
    recommends
        0 <= lo,
        hi <= b.len(),
    decreases hi - lo,
        when lo <= hi
{
    if lo >= hi {
        Ok(seq![])
    } else if lo + 7 > hi {
        Err(OdsError::UnexpectedEof)
    } else {
        let size = be_i32(b.subrange(lo + 1, lo + 5));
        let nlen = be_i16(b.subrange(lo + 5, lo + 7));
        if size < 2 || nlen < 0 || size < nlen + 2 {
            Err(OdsError::DecodeError)
        } else if lo + 5 + size > hi {
            Err(OdsError::UnexpectedEof)
        } else {
            match decode_rec(rec_at(b, lo)) {
                Ok(t) => match decode_list(b, lo + 5 + size, hi) {
                    Ok(rest) => Ok(seq![t] + rest),
                    Err(e) => Err(e),
                },
                Err(e) => Err(e),
            }
        }
    }
}

/// Prefix a decoded-list result with already decoded tags.
pub open spec fn prepend_tags(acc: Seq<GTag>, r: Result<Seq<GTag>, OdsError>) -> Result<
    Seq<GTag>,
    OdsError,
> {
    match r {
        Ok(rest) => Ok(acc + rest),
        Err(e) => Err(e),
    }
}

} // verus!

//! The path resolver and the scout & patch engine.
//!
//! Every function here scans a byte range as a flat list of records, left to
//! right: a record whose name length differs from the current path segment's
//! length is skipped without reading its name; on a name match the scan stops
//! (last segment) or descends into the record's value bytes with the next
//! segment. The scouting variant additionally records each matched ancestor's
//! body size and the absolute offset of its size field, and the delete and
//! replace functions splice the target record's bytes and rewrite every
//! recorded ancestor's size field.

use vstd::prelude::*;

use crate::error::OdsError;
use crate::format::{
    decode_list, decode_rec, first_dot, i32_as_u32, lemma_apply_patches_snoc,
    lemma_first_dot_unique, lemma_split_at_dots_len, prepend_tags, rec_at, scan_path, seg_name,
    splice, split_at_dots, store_be32_at, GOutcome, GPatch,
};
use crate::keyscout::{KeyScout, KeyScoutChild};
use crate::streams::{bytes_to_string, i32_to_u32_val, ReadStream};
use crate::tag_builder::TagBuilder;
use crate::tags::Tag;

verus! {

// ---------------------------------------------------------------------------
// Small verified helpers
// ---------------------------------------------------------------------------

fn vecs_equal(a: &Vec<u8>, b: &Vec<u8>) -> (r: bool)
    ensures
        r == (a@ == b@),
{
    if a.len() != b.len() {
        return false;
    }
    let mut i: usize = 0;
    while i < a.len()
        invariant
            i <= a@.len(),
            a@.len() == b@.len(),
            forall|j: int| 0 <= j < i ==> a@[j] == b@[j],
        decreases a@.len() - i,
    {
        if a[i] != b[i] {
            return false;
        }
        i = i + 1;
    }
    proof {
        assert(a@ =~= b@);
    }
    true
}

pub(crate) fn copy_range(b: &Vec<u8>, lo: usize, hi: usize) -> (r: Vec<u8>)
    requires
        lo <= hi <= b@.len(),
    ensures
        r@ == b@.subrange(lo as int, hi as int),
{
    let mut out: Vec<u8> = Vec::new();
    let mut i: usize = lo;
    while i < hi
        invariant
            lo <= i <= hi <= b@.len(),
            out@ == b@.subrange(lo as int, i as int),
        decreases hi - i,
    {
        out.push(b[i]);
        i = i + 1;
        assert(out@ =~= b@.subrange(lo as int, i as int));
    }
    out
}

// ---------------------------------------------------------------------------
// Splitting a key into path segments
// ---------------------------------------------------------------------------

fn find_first_dot(b: &Vec<u8>, start: usize) -> (r: usize)
    requires
        start <= b@.len(),
    ensures
        start <= r <= b@.len(),
        r - start == first_dot(b@.subrange(start as int, b@.len() as int)),
        r < b@.len() ==> b@[r as int] == 0x2e,
{
    let ghost suffix = b@.subrange(start as int, b@.len() as int);
    let mut i: usize = start;
    while i < b.len() && b[i] != 0x2e
        invariant
            start <= i <= b@.len(),
            forall|j: int| start <= j < i ==> b@[j] != 0x2e,
        decreases b@.len() - i,
    {
        i = i + 1;
    }
    proof {
        assert forall|j: int| 0 <= j < i - start implies suffix[j] != 0x2e by {
            assert(suffix[j] == b@[start + j]);
        }
        if i < b@.len() {
            assert(suffix[i - start] == b@[i as int]);
        }
        lemma_first_dot_unique(suffix, i - start);
    }
    i
}

fn split_key_bytes(b: &Vec<u8>, start: usize) -> (r: Vec<Vec<u8>>)
    requires
        start <= b@.len(),
    ensures
        r@.map_values(|v: Vec<u8>| v@) == split_at_dots(
            b@.subrange(start as int, b@.len() as int),
        ),
    decreases b@.len() - start,
{
    let ghost suffix = b@.subrange(start as int, b@.len() as int);
    let ghost fd = first_dot(suffix);
    let j = find_first_dot(b, start);
    let seg = copy_range(b, start, j);
    if j == b.len() {
        proof {
            assert(seg@ =~= suffix);
        }
        let mut out: Vec<Vec<u8>> = Vec::new();
        out.push(seg);
        proof {
            assert(out@.map_values(|v: Vec<u8>| v@) =~= split_at_dots(suffix));
        }
        out
    } else {
        let mut rest = split_key_bytes(b, j + 1);
        rest.insert(0, seg);
        proof {
            assert(seg@ =~= suffix.subrange(0, fd));
            assert(b@.subrange(j + 1, b@.len() as int) =~= suffix.subrange(
                fd + 1,
                suffix.len() as int,
            ));
            assert(rest@.map_values(|v: Vec<u8>| v@) =~= split_at_dots(suffix));
        }
        rest
    }
}

/// Split a key into its dot-separated segments, as raw bytes.
pub fn split_key(key: &str) -> (r: Vec<Vec<u8>>)
    ensures
        r@.map_values(|v: Vec<u8>| v@) == split_at_dots(vstd::utf8::encode_utf8(key@)),
        r@.len() >= 1,
{
    let b = key.as_bytes_vec();
    proof {
        assert(b@.subrange(0, b@.len() as int) =~= b@);
        lemma_split_at_dots_len(b@);
    }
    let r = split_key_bytes(&b, 0);
    proof {
        assert(r@.map_values(|v: Vec<u8>| v@).len() == r@.len());
    }
    r
}

// ---------------------------------------------------------------------------
// find: does a path resolve?
// ---------------------------------------------------------------------------

#[verifier::loop_isolation(false)]
fn find_records(read_stream: ReadStream, segs: &Vec<Vec<u8>>, k: usize) -> (r: Result<
    bool,
    OdsError,
>)
    requires
        read_stream.wf(),
        read_stream.spec_pos() <= read_stream.spec_limit(),
        k < segs@.len(),
    ensures
        ({
            let sc = scan_path(
                read_stream@,
                read_stream.spec_pos(),
                read_stream.spec_limit(),
                segs@.map_values(|v: Vec<u8>| v@),
                k as int,
            );
            match r {
                Ok(found) => (found <==> sc.outcome matches GOutcome::Hit(_)) && (!found
                    <==> sc.outcome is Absent),
                Err(e) => sc.outcome == GOutcome::Fail(e),
            }
        }),
    decreases segs@.len() - k,
{
    let ghost b = read_stream@;
    let ghost hi = read_stream.spec_limit();
    let ghost segs_v = segs@.map_values(|v: Vec<u8>| v@);
    let ghost lo0 = read_stream.spec_pos();
    let mut rs = read_stream;
    let seg: &Vec<u8> = &segs[k];
    let limit = rs.size();
    while rs.can_read_more()
        invariant
            rs.wf(),
            rs@ == b,
            rs.spec_limit() == hi,
            rs.spec_pos() <= hi,
            limit as int == hi,
            k < segs@.len(),
            segs_v == segs@.map_values(|v: Vec<u8>| v@),
            seg@ == segs_v[k as int],
            scan_path(b, lo0, hi, segs_v, k as int) == scan_path(
                b,
                rs.spec_pos(),
                hi,
                segs_v,
                k as int,
            ),
        decreases hi - rs.spec_pos(),
    {
        let start = rs.position();
        let _ty = match rs.read() {
            Ok(t) => t,
            Err(_) => {
                proof {
                    assert(false);
                }
                return Err(OdsError::UnexpectedEof);
            },
        };
        let size_i = match rs.read_i32() {
            Ok(v) => v,
            Err(e) => {
                return Err(e);
            },
        };
        let nlen_i = match rs.read_i16() {
            Ok(v) => v,
            Err(e) => {
                return Err(e);
            },
        };
        if size_i < 2 {
            return Err(OdsError::DecodeError);
        }
        let size_us = size_i as usize;
        if nlen_i < 0 || nlen_i as usize != seg.len() {
            // Skip to this record's end; a skip at or past the limit ends the
            // level.
            if size_us - 2 > limit - (start + 7) {
                rs.set_position(limit);
            } else {
                rs.set_position(start + 5 + size_us);
            }
            continue;
        }
        let nlen_us = nlen_i as usize;
        let name_bytes = match rs.read_vec(nlen_us) {
            Ok(v) => v,
            Err(e) => {
                return Err(e);
            },
        };
        if !vecs_equal(&name_bytes, seg) {
            if size_us - 2 > limit - (start + 7) {
                rs.set_position(limit);
            } else {
                rs.set_position(start + 5 + size_us);
            }
            continue;
        }
        // Name match.
        if size_us - 2 > limit - (start + 7) {
            return Err(OdsError::UnexpectedEof);
        }
        if size_us < nlen_us + 2 {
            return Err(OdsError::DecodeError);
        }
        if k == segs.len() - 1 {
            return Ok(true);
        }
        let inner = rs.sub_view(start + 7 + nlen_us, start + 5 + size_us);
        return find_records(inner, segs, k + 1);
    }
    Ok(false)
}

/// Whether the given dot-separated path resolves to a record in the stream's
/// readable range, scanning from the stream's position. The buffer is only
/// read: the result is a function of the bytes and the key alone.
pub fn find_sub_object_data(read_stream: ReadStream, key: String) -> (r: Result<bool, OdsError>)
    requires
        read_stream.wf(),
        read_stream.spec_pos() <= read_stream.spec_limit(),
    ensures
        ({
            let sc = scan_path(
                read_stream@,
                read_stream.spec_pos(),
                read_stream.spec_limit(),
                split_at_dots(vstd::utf8::encode_utf8(key@)),
                0,
            );
            match r {
                Ok(found) => (found <==> sc.outcome matches GOutcome::Hit(_)) && (!found
                    <==> sc.outcome is Absent),
                Err(e) => sc.outcome == GOutcome::Fail(e),
            }
        }),
{
    let segs = split_key(key.as_str());
    find_records(read_stream, &segs, 0)
}


// ---------------------------------------------------------------------------
// get: resolve a path and decode the record it names
// ---------------------------------------------------------------------------

#[verifier::loop_isolation(false)]
fn get_records(read_stream: ReadStream, segs: &Vec<Vec<u8>>, k: usize) -> (r: Result<
    Option<Tag>,
    OdsError,
>)
    requires
        read_stream.wf(),
        read_stream.spec_pos() <= read_stream.spec_limit(),
        k < segs@.len(),
    ensures
        ({
            let sc = scan_path(
                read_stream@,
                read_stream.spec_pos(),
                read_stream.spec_limit(),
                segs@.map_values(|v: Vec<u8>| v@),
                k as int,
            );
            match r {
                Ok(Some(t)) => sc.outcome matches GOutcome::Hit(h) && decode_rec(
                    rec_at(read_stream@, h.start),
                ) == Ok::<crate::format::GTag, OdsError>(t@),
                Ok(None) => sc.outcome is Absent,
                Err(e) => sc.outcome == GOutcome::Fail(e) || (sc.outcome matches GOutcome::Hit(h)
                    && decode_rec(rec_at(read_stream@, h.start)) == Err::<
                    crate::format::GTag,
                    OdsError,
                >(e)),
            }
        }),
    decreases segs@.len() - k,
{
    let ghost b = read_stream@;
    let ghost hi = read_stream.spec_limit();
    let ghost segs_v = segs@.map_values(|v: Vec<u8>| v@);
    let ghost lo0 = read_stream.spec_pos();
    let mut rs = read_stream;
    let seg: &Vec<u8> = &segs[k];
    let limit = rs.size();
    while rs.can_read_more()
        invariant
            rs.wf(),
            rs@ == b,
            rs.spec_limit() == hi,
            rs.spec_pos() <= hi,
            limit as int == hi,
            seg@ == segs_v[k as int],
            scan_path(b, lo0, hi, segs_v, k as int) == scan_path(
                b,
                rs.spec_pos(),
                hi,
                segs_v,
                k as int,
            ),
        decreases hi - rs.spec_pos(),
    {
        let ghost start_g = rs.spec_pos();
        let start = rs.position();
        let mut current_builder = TagBuilder::new();
        let ty = match rs.read() {
            Ok(t) => t,
            Err(_) => {
                proof {
                    assert(false);
                }
                return Err(OdsError::UnexpectedEof);
            },
        };
        current_builder.set_data_type(ty as i32);
        let size_i = match rs.read_i32() {
            Ok(v) => v,
            Err(e) => {
                return Err(e);
            },
        };
        current_builder.set_data_size(size_i);
        current_builder.set_starting_index(start as i64);
        let nlen_i = match rs.read_i16() {
            Ok(v) => v,
            Err(e) => {
                return Err(e);
            },
        };
        current_builder.set_name_size(nlen_i as i32);
        if size_i < 2 {
            return Err(OdsError::DecodeError);
        }
        let size_us = size_i as usize;
        if nlen_i < 0 || nlen_i as usize != seg.len() {
            if size_us - 2 > limit - (start + 7) {
                rs.set_position(limit);
            } else {
                rs.set_position(start + 5 + size_us);
            }
            continue;
        }
        let nlen_us = nlen_i as usize;
        let name_bytes = match rs.read_vec(nlen_us) {
            Ok(v) => v,
            Err(e) => {
                return Err(e);
            },
        };
        if !vecs_equal(&name_bytes, seg) {
            if size_us - 2 > limit - (start + 7) {
                rs.set_position(limit);
            } else {
                rs.set_position(start + 5 + size_us);
            }
            continue;
        }
        // Name match.
        if size_us - 2 > limit - (start + 7) {
            return Err(OdsError::UnexpectedEof);
        }
        if size_us < nlen_us + 2 {
            return Err(OdsError::DecodeError);
        }
        if k < segs.len() - 1 {
            let inner = rs.sub_view(start + 7 + nlen_us, start + 5 + size_us);
            return get_records(inner, segs, k + 1);
        }
        // Terminal match: decode this record into a tag.
        let tag_name = match bytes_to_string(name_bytes) {
            Some(s) => s,
            None => {
                return Err(OdsError::DecodeError);
            },
        };
        current_builder.set_name(tag_name);
        let value_length = size_us - 2 - nlen_us;
        current_builder.set_value_length(value_length as i32);
        let value_view = rs.sub_view(start + 7 + nlen_us, start + 5 + size_us);
        current_builder.set_value_bytes(value_view);
        let ghost rec = rec_at(b, start_g);
        proof {
            assert(rec.name =~= b.subrange(start_g + 7, start_g + 7 + nlen_i as int));
            assert(rec.value =~= b.subrange(
                start_g + 7 + nlen_i as int,
                start_g + 7 + nlen_i as int + value_length as int,
            ));
        }
        return match current_builder.process() {
            Ok(t) => Ok(Some(t)),
            Err(e) => Err(e),
        };
    }
    Ok(None)
}

/// Resolve the given dot-separated path in the stream's readable range and
/// decode the record it names into a tag. Absence is `Ok(None)`; bytes that
/// cannot be interpreted are an error.
pub fn get_sub_object_data(read_stream: ReadStream, key: String) -> (r: Result<
    Option<Tag>,
    OdsError,
>)
    requires
        read_stream.wf(),
        read_stream.spec_pos() <= read_stream.spec_limit(),
    ensures
        ({
            let sc = scan_path(
                read_stream@,
                read_stream.spec_pos(),
                read_stream.spec_limit(),
                split_at_dots(vstd::utf8::encode_utf8(key@)),
                0,
            );
            match r {
                Ok(Some(t)) => sc.outcome matches GOutcome::Hit(h) && decode_rec(
                    rec_at(read_stream@, h.start),
                ) == Ok::<crate::format::GTag, OdsError>(t@),
                Ok(None) => sc.outcome is Absent,
                Err(e) => sc.outcome == GOutcome::Fail(e) || (sc.outcome matches GOutcome::Hit(h)
                    && decode_rec(rec_at(read_stream@, h.start)) == Err::<
                    crate::format::GTag,
                    OdsError,
                >(e)),
            }
        }),
{
    let segs = split_key(key.as_str());
    get_records(read_stream, &segs, 0)
}


// ---------------------------------------------------------------------------
// scout: resolve a path while recording every ancestor's size field
// ---------------------------------------------------------------------------

#[verifier::loop_isolation(false)]
fn scout_records(read_stream: ReadStream, segs: &Vec<Vec<u8>>, k: usize, counter: &mut KeyScout)
    -> (r: Result<(), OdsError>)
    requires
        read_stream.wf(),
        read_stream.spec_pos() <= read_stream.spec_limit(),
        read_stream.spec_limit() + 1 <= 0x7FFF_FFFF,
        k < segs@.len(),
    ensures
        ({
            let sc = scan_path(
                read_stream@,
                read_stream.spec_pos(),
                read_stream.spec_limit(),
                segs@.map_values(|v: Vec<u8>| v@),
                k as int,
            );
            let segs_v = segs@.map_values(|v: Vec<u8>| v@);
            let n0 = old(counter).children@.len() as int;
            &&& final(counter).children@.len() == n0 + sc.chain.len()
            &&& (forall|i: int|
                0 <= i < n0 ==> final(counter).children@[i] == old(counter).children@[i])
            &&& (forall|i: int|
                0 <= i < sc.chain.len() ==> {
                    let c = #[trigger] final(counter).children@[n0 + i];
                    &&& c.size as int == sc.chain[i].size
                    &&& c.starting_index as int == sc.chain[i].start + 1
                    &&& c.name@ == seg_name(segs_v[k + i])
                })
            &&& match sc.outcome {
                GOutcome::Hit(h) => r == Ok::<(), OdsError>(()) && (final(counter).end matches Some(c) && c.size as int == h.size && c.starting_index as int
                    == h.start + 1 && c.name@ == seg_name(segs_v[segs_v.len() - 1])),
                GOutcome::Absent => r == Ok::<(), OdsError>(()) && final(counter).end == old(counter).end,
                GOutcome::Fail(e) => r == Err::<(), OdsError>(e) && final(counter).end == old(counter).end,
            }
        }),
    decreases segs@.len() - k,
{
    let ghost b = read_stream@;
    let ghost hi = read_stream.spec_limit();
    let ghost segs_v = segs@.map_values(|v: Vec<u8>| v@);
    let ghost lo0 = read_stream.spec_pos();
    let mut rs = read_stream;
    let seg: &Vec<u8> = &segs[k];
    let limit = rs.size();
    while rs.can_read_more()
        invariant
            rs.wf(),
            rs@ == b,
            rs.spec_limit() == hi,
            rs.spec_pos() <= hi,
            limit as int == hi,
            seg@ == segs_v[k as int],
            *counter == *old(counter),
            scan_path(b, lo0, hi, segs_v, k as int) == scan_path(
                b,
                rs.spec_pos(),
                hi,
                segs_v,
                k as int,
            ),
        decreases hi - rs.spec_pos(),
    {
        let ghost start_g = rs.spec_pos();
        let start = rs.position();
        let mut child = KeyScoutChild::new();
        let _ty = match rs.read() {
            Ok(t) => t,
            Err(_) => {
                proof {
                    assert(false);
                }
                return Err(OdsError::UnexpectedEof);
            },
        };
        child.set_starting_index((start + 1) as i32);
        let size_i = match rs.read_i32() {
            Ok(v) => v,
            Err(e) => {
                return Err(e);
            },
        };
        let nlen_i = match rs.read_i16() {
            Ok(v) => v,
            Err(e) => {
                return Err(e);
            },
        };
        if size_i < 2 {
            return Err(OdsError::DecodeError);
        }
        let size_us = size_i as usize;
        if nlen_i < 0 || nlen_i as usize != seg.len() {
            if size_us - 2 > limit - (start + 7) {
                rs.set_position(limit);
            } else {
                rs.set_position(start + 5 + size_us);
            }
            continue;
        }
        let nlen_us = nlen_i as usize;
        let name_bytes = match rs.read_vec(nlen_us) {
            Ok(v) => v,
            Err(e) => {
                return Err(e);
            },
        };
        if !vecs_equal(&name_bytes, seg) {
            if size_us - 2 > limit - (start + 7) {
                rs.set_position(limit);
            } else {
                rs.set_position(start + 5 + size_us);
            }
            continue;
        }
        // Name match.
        if size_us - 2 > limit - (start + 7) {
            return Err(OdsError::UnexpectedEof);
        }
        if size_us < nlen_us + 2 {
            return Err(OdsError::DecodeError);
        }
        let matched_name = match bytes_to_string(name_bytes) {
            Some(s) => s,
            None => String::new(),
        };
        child.set_size(size_i);
        child.set_name(matched_name);
        if k == segs.len() - 1 {
            counter.set_end(child);
            return Ok(());
        }
        counter.add_child(child);
        let ghost mid = *counter;
        let ghost this_hit = crate::format::GHit { start: start_g, size: size_i as int };
        let inner = rs.sub_view(start + 7 + nlen_us, start + 5 + size_us);
        let res = scout_records(inner, segs, k + 1, counter);
        proof {
            let inner_sc = scan_path(
                b,
                start_g + 7 + nlen_i as int,
                start_g + 5 + size_i as int,
                segs_v,
                k as int + 1,
            );
            let sc = scan_path(b, start_g, hi, segs_v, k as int);
            assert(sc.chain == seq![this_hit] + inner_sc.chain);
            let n0 = old(counter).children@.len() as int;
            assert(mid.children@.len() == n0 + 1);
            assert(mid.children@[n0] == child);
            assert forall|i: int| 0 <= i < sc.chain.len() implies {
                let c = #[trigger] final(counter).children@[n0 + i];
                &&& c.size as int == sc.chain[i].size
                &&& c.starting_index as int == sc.chain[i].start + 1
                &&& c.name@ == seg_name(segs_v[k + i])
            } by {
                if i == 0 {
                    assert(final(counter).children@[n0] == mid.children@[n0]);
                    assert(sc.chain[0] == this_hit);
                } else {
                    assert(final(counter).children@[(n0 + 1) + (i - 1)] == final(counter).children@[n0 + i]);
                    assert(sc.chain[i] == inner_sc.chain[i - 1]);
                }
            }
        }
        return res;
    }
    Ok(())
}

/// Resolve the given dot-separated path, recording in `counter` the body size
/// and absolute size-field offset of every matched ancestor container, and of
/// the terminal record itself when the path fully resolves. No terminal record
/// in `counter` means the path was not found, whatever ancestors were
/// recorded.
pub fn scout_object_data(read_stream: &ReadStream, key: String, counter: &mut KeyScout) -> (r:
    Result<(), OdsError>)
    requires
        read_stream.wf(),
        read_stream.spec_pos() <= read_stream.spec_limit(),
        read_stream.spec_limit() + 1 <= 0x7FFF_FFFF,
    ensures
        ({
            let segs_v = split_at_dots(vstd::utf8::encode_utf8(key@));
            let sc = scan_path(
                read_stream@,
                read_stream.spec_pos(),
                read_stream.spec_limit(),
                segs_v,
                0,
            );
            let n0 = old(counter).children@.len() as int;
            &&& final(counter).children@.len() == n0 + sc.chain.len()
            &&& (forall|i: int|
                0 <= i < n0 ==> final(counter).children@[i] == old(counter).children@[i])
            &&& (forall|i: int|
                0 <= i < sc.chain.len() ==> {
                    let c = #[trigger] final(counter).children@[n0 + i];
                    &&& c.size as int == sc.chain[i].size
                    &&& c.starting_index as int == sc.chain[i].start + 1
                    &&& c.name@ == seg_name(segs_v[i])
                })
            &&& match sc.outcome {
                GOutcome::Hit(h) => r == Ok::<(), OdsError>(()) && (final(counter).end matches Some(c) && c.size as int == h.size && c.starting_index as int
                    == h.start + 1 && c.name@ == seg_name(segs_v[segs_v.len() - 1])),
                GOutcome::Absent => r == Ok::<(), OdsError>(()) && final(counter).end == old(counter).end,
                GOutcome::Fail(e) => r == Err::<(), OdsError>(e) && final(counter).end == old(counter).end,
            }
        }),
{
    let segs = split_key(key.as_str());
    let pos = read_stream.position();
    let limit = read_stream.size();
    let rs = read_stream.sub_view(pos, limit);
    scout_records(rs, &segs, 0, counter)
}


// ---------------------------------------------------------------------------
// Full listing: decode every record in a byte range
// ---------------------------------------------------------------------------

/// Decode every record in the next `limit` bytes of the stream's readable
/// range into a tag, in scan order, with no descent into containers.
#[verifier::loop_isolation(false)]
pub fn get_list_data(read_stream: ReadStream, limit: i32) -> (r: Result<Vec<Tag>, OdsError>)
    requires
        read_stream.wf(),
        limit >= 0,
        read_stream.spec_pos() + limit <= read_stream.spec_limit(),
    ensures
        ({
            let dl = decode_list(
                read_stream@,
                read_stream.spec_pos(),
                read_stream.spec_pos() + limit,
            );
            match r {
                Ok(tags) => dl == Ok::<Seq<crate::format::GTag>, OdsError>(
                    tags@.map_values(|t: Tag| t@),
                ),
                Err(e) => dl == Err::<Seq<crate::format::GTag>, OdsError>(e),
            }
        }),
{
    let ghost b = read_stream@;
    let pos0 = read_stream.position();
    let lim_us = limit as usize;
    let end = pos0 + lim_us;
    let ghost lo0 = pos0 as int;
    let ghost hi = end as int;
    let mut rs = read_stream.sub_view(pos0, end);
    let mut output: Vec<Tag> = Vec::new();
    while rs.can_read_more()
        invariant
            rs.wf(),
            rs@ == b,
            rs.spec_limit() == hi,
            rs.spec_pos() <= hi,
            prepend_tags(output@.map_values(|t: Tag| t@), decode_list(b, rs.spec_pos(), hi))
                == decode_list(b, lo0, hi),
        decreases hi - rs.spec_pos(),
    {
        let ghost start_g = rs.spec_pos();
        let ghost out_pre = output@.map_values(|t: Tag| t@);
        let start = rs.position();
        let mut current_builder = TagBuilder::new();
        let ty = match rs.read() {
            Ok(t) => t,
            Err(_) => {
                proof {
                    assert(false);
                }
                return Err(OdsError::UnexpectedEof);
            },
        };
        current_builder.set_data_type(ty as i32);
        let size_i = match rs.read_i32() {
            Ok(v) => v,
            Err(e) => {
                return Err(e);
            },
        };
        current_builder.set_data_size(size_i);
        current_builder.set_starting_index(start as i64);
        let nlen_i = match rs.read_i16() {
            Ok(v) => v,
            Err(e) => {
                return Err(e);
            },
        };
        current_builder.set_name_size(nlen_i as i32);
        if size_i < 2 || nlen_i < 0 || (size_i as usize) < (nlen_i as usize) + 2 {
            return Err(OdsError::DecodeError);
        }
        let size_us = size_i as usize;
        let nlen_us = nlen_i as usize;
        if size_us - 2 > end - (start + 7) {
            return Err(OdsError::UnexpectedEof);
        }
        let tag_name = match rs.read_string(nlen_us) {
            Ok(s) => s,
            Err(e) => {
                proof {
                    assert(e == OdsError::DecodeError);
                    assert(rec_at(b, start_g).name =~= b.subrange(
                        start_g + 7,
                        start_g + 7 + nlen_i as int,
                    ));
                }
                return Err(e);
            },
        };
        current_builder.set_name(tag_name);
        let value_length = size_us - 2 - nlen_us;
        current_builder.set_value_length(value_length as i32);
        let value_view = rs.sub_view(start + 7 + nlen_us, start + 5 + size_us);
        current_builder.set_value_bytes(value_view);
        rs.set_position(start + 5 + size_us);
        let ghost rec = rec_at(b, start_g);
        proof {
            assert(rec.name =~= b.subrange(start_g + 7, start_g + 7 + nlen_i as int));
            assert(rec.value =~= b.subrange(
                start_g + 7 + nlen_i as int,
                start_g + 7 + nlen_i as int + value_length as int,
            ));
        }
        let tag = match current_builder.process() {
            Ok(t) => t,
            Err(e) => {
                return Err(e);
            },
        };
        proof {
            assert(decode_rec(rec) == Ok::<crate::format::GTag, OdsError>(tag@));
        }
        output.push(tag);
        proof {
            assert(output@.map_values(|t: Tag| t@) =~= out_pre.push(tag@));
            let after = decode_list(b, rs.spec_pos(), hi);
            assert(decode_list(b, start_g, hi) == prepend_tags(seq![tag@], after));
            match after {
                Ok(rest) => {
                    assert(out_pre + (seq![tag@] + rest) =~= out_pre.push(tag@) + rest);
                },
                Err(_) => {},
            }
        }
    }
    proof {
        assert(output@.map_values(|t: Tag| t@) + Seq::<crate::format::GTag>::empty()
            =~= output@.map_values(|t: Tag| t@));
    }
    Ok(output)
}

// ---------------------------------------------------------------------------
// Splicing and size-field repair
// ---------------------------------------------------------------------------

fn splice_bytes(data: &mut Vec<u8>, lo: usize, hi: usize, repl: &Vec<u8>)
    requires
        lo <= hi <= old(data)@.len(),
        old(data)@.len() - (hi - lo) + repl@.len() <= usize::MAX,
    ensures
        final(data)@ == splice(old(data)@, lo as int, hi as int, repl@),
{
    let mut out = copy_range(data, 0, lo);
    let mut i: usize = 0;
    while i < repl.len()
        invariant
            i <= repl@.len(),
            out@ == old(data)@.subrange(0, lo as int) + repl@.subrange(0, i as int),
        decreases repl@.len() - i,
    {
        out.push(repl[i]);
        i = i + 1;
        assert(out@ =~= old(data)@.subrange(0, lo as int) + repl@.subrange(0, i as int));
    }
    let mut j: usize = hi;
    while j < data.len()
        invariant
            hi <= j <= old(data)@.len(),
            data@ == old(data)@,
            out@ == old(data)@.subrange(0, lo as int) + repl@ + old(data)@.subrange(
                hi as int,
                j as int,
            ),
        decreases old(data)@.len() - j,
    {
        out.push(data[j]);
        j = j + 1;
        assert(out@ =~= old(data)@.subrange(0, lo as int) + repl@ + old(data)@.subrange(
            hi as int,
            j as int,
        ));
    }
    proof {
        assert(repl@.subrange(0, repl@.len() as int) =~= repl@);
    }
    *data = out;
    proof {
        assert(data@ =~= splice(old(data)@, lo as int, hi as int, repl@));
    }
}

fn store_be32(data: &mut Vec<u8>, at: usize, v: u32)
    requires
        at + 4 <= old(data)@.len(),
    ensures
        final(data)@ == store_be32_at(old(data)@, at as int, v),
{
    let n = data.len();
    data[at] = (v / 0x100_0000) as u8;
    data[at + 1] = ((v / 0x1_0000) % 0x100) as u8;
    data[at + 2] = ((v / 0x100) % 0x100) as u8;
    data[at + 3] = (v % 0x100) as u8;
    proof {
        assert(data@ =~= store_be32_at(old(data)@, at as int, v));
    }
}

/// The size-field patches a repaired ancestor list calls for: each child's
/// current size, stored at its recorded offset.
pub open spec fn patches_of(cs: Seq<KeyScoutChild>) -> Seq<GPatch> {
    cs.map_values(|c: KeyScoutChild| GPatch { at: c.starting_index as int, size: i32_as_u32(c.size) })
}

// Rewrites every recorded ancestor's size field with its current size.
#[verifier::loop_isolation(false)]
fn patch_ancestors(data: &mut Vec<u8>, counter: &KeyScout)
    requires
        forall|i: int|
            0 <= i < counter.children@.len() ==> {
                let c = #[trigger] counter.children@[i];
                0 <= c.starting_index && c.starting_index + 4 <= old(data)@.len()
            },
    ensures
        final(data)@ == crate::format::apply_patches(old(data)@, patches_of(counter.children@)),
        final(data)@.len() == old(data)@.len(),
{
    let ghost base = data@;
    let ghost ps = patches_of(counter.children@);
    let mut i: usize = 0;
    while i < counter.children.len()
        invariant
            i <= counter.children@.len(),
            data@ == crate::format::apply_patches(base, ps.subrange(0, i as int)),
            data@.len() == base.len(),
        decreases counter.children@.len() - i,
    {
        proof {
            lemma_apply_patches_snoc(base, ps, i as int);
        }
        let at = counter.children[i].starting_index as usize;
        let sz = counter.children[i].size;
        store_be32(data, at, i32_to_u32_val(sz));
        i = i + 1;
    }
    proof {
        assert(ps.subrange(0, ps.len() as int) =~= ps);
    }
}

/// Remove the scouted terminal record from the buffer: subtract its full
/// footprint from every recorded ancestor's size, splice its bytes out, and
/// rewrite every ancestor's size field in place.
pub fn delete_sub_object_data(data: &mut Vec<u8>, counter: &mut KeyScout)
    requires
        old(counter).end matches Some(end) && {
            &&& 1 <= end.starting_index
            &&& 0 <= end.size
            &&& end.size + 5 <= 0x7FFF_FFFF
            &&& end.starting_index + 4 + end.size <= old(data)@.len()
            &&& forall|i: int|
                0 <= i < old(counter).children@.len() ==> {
                    let c = #[trigger] old(counter).children@[i];
                    &&& 0 <= c.starting_index
                    &&& c.starting_index + 4 <= end.starting_index - 1
                    &&& i32::MIN <= c.size - (end.size + 5)
                }
        },
    ensures
        ({
            let end = old(counter).end.unwrap();
            &&& final(counter).end == old(counter).end
            &&& final(counter).children@.len() == old(counter).children@.len()
            &&& (forall|i: int|
                0 <= i < old(counter).children@.len() ==> {
                    let c = #[trigger] final(counter).children@[i];
                    let o = old(counter).children@[i];
                    c.size == o.size - (end.size + 5) && c.name == o.name && c.starting_index
                        == o.starting_index
                })
            &&& final(data)@ == crate::format::apply_patches(
                splice(
                    old(data)@,
                    end.starting_index - 1,
                    end.starting_index + 4 + end.size,
                    Seq::empty(),
                ),
                patches_of(final(counter).children@),
            )
        }),
{
    let (end_size, end_start) = match counter.get_end() {
        Some(e) => (e.size, e.starting_index),
        None => {
            proof {
                assert(false);
            }
            (0, 1)
        },
    };
    let n = data.len();
    let end_amount = end_size + 5;
    counter.remove_amount(end_amount);
    let empty: Vec<u8> = Vec::new();
    let lo = (end_start - 1) as usize;
    let hi = end_start as usize + 4 + end_size as usize;
    splice_bytes(data, lo, hi, &empty);
    proof {
        assert(empty@ =~= Seq::<u8>::empty());
    }
    patch_ancestors(data, counter);
}

/// Replace the scouted terminal record's bytes with a replacement record:
/// adjust every recorded ancestor's size by the length difference, splice the
/// new bytes in at the same position, and rewrite every ancestor's size field
/// in place.
pub fn replace_sub_object_data(data: &mut Vec<u8>, counter: &mut KeyScout, data_to_replace: &Vec<
    u8,
>)
    requires
        data_to_replace@.len() <= 0x7FFF_FFFF,
        old(data)@.len() + data_to_replace@.len() <= usize::MAX,
        old(counter).end matches Some(end) && {
            &&& 1 <= end.starting_index
            &&& 0 <= end.size
            &&& end.size + 5 <= 0x7FFF_FFFF
            &&& end.starting_index + 4 + end.size <= old(data)@.len()
            &&& forall|i: int|
                0 <= i < old(counter).children@.len() ==> {
                    let c = #[trigger] old(counter).children@[i];
                    &&& 0 <= c.starting_index
                    &&& c.starting_index + 4 <= end.starting_index - 1
                    &&& i32::MIN <= c.size - (end.size + 5)
                    &&& c.size - (end.size + 5) + data_to_replace@.len() <= 0x7FFF_FFFF
                }
        },
    ensures
        ({
            let end = old(counter).end.unwrap();
            &&& final(counter).end == old(counter).end
            &&& final(counter).children@.len() == old(counter).children@.len()
            &&& (forall|i: int|
                0 <= i < old(counter).children@.len() ==> {
                    let c = #[trigger] final(counter).children@[i];
                    let o = old(counter).children@[i];
                    c.size == o.size - (end.size + 5) + data_to_replace@.len() && c.name == o.name
                        && c.starting_index == o.starting_index
                })
            &&& final(data)@ == crate::format::apply_patches(
                splice(
                    old(data)@,
                    end.starting_index - 1,
                    end.starting_index + 4 + end.size,
                    data_to_replace@,
                ),
                patches_of(final(counter).children@),
            )
        }),
{
    let (end_size, end_start) = match counter.get_end() {
        Some(e) => (e.size, e.starting_index),
        None => {
            proof {
                assert(false);
            }
            (0, 1)
        },
    };
    let n = data.len();
    let end_amount = end_size + 5;
    counter.remove_amount(end_amount);
    counter.add_amount(data_to_replace.len() as i32);
    let lo = (end_start - 1) as usize;
    let hi = end_start as usize + 4 + end_size as usize;
    splice_bytes(data, lo, hi, data_to_replace);
    patch_ancestors(data, counter);
}


// ---------------------------------------------------------------------------
// Indexed access: the n-th record of a byte range
// ---------------------------------------------------------------------------

// Positions the stream after the n-th record's header and returns the
// header's fields, or `None` when fewer than `n + 1` records fit before the
// limit.
#[verifier::loop_isolation(false)]
pub(crate) fn seek_nth(read_stream: &mut ReadStream, n: usize) -> (r: Result<
    Option<(u8, usize, usize, usize)>,
    OdsError,
>)
    requires
        old(read_stream).wf(),
        old(read_stream).spec_pos() <= old(read_stream).spec_limit(),
    ensures
        final(read_stream)@ == old(read_stream)@,
        final(read_stream).spec_limit() == old(read_stream).spec_limit(),
        final(read_stream).wf(),
        ({
            let nr = crate::format::nth_rec(
                old(read_stream)@,
                old(read_stream).spec_pos(),
                old(read_stream).spec_limit(),
                n as int,
            );
            match r {
                Ok(Some((ty, start, size, nlen))) => {
                    &&& nr == Ok::<Option<crate::format::GRec>, OdsError>(
                        Some(rec_at(old(read_stream)@, start as int)),
                    )
                    &&& ty == old(read_stream)@[start as int]
                    &&& size as int == crate::format::be_i32(
                        old(read_stream)@.subrange(start as int + 1, start as int + 5),
                    )
                    &&& nlen as int == crate::format::be_i16(
                        old(read_stream)@.subrange(start as int + 5, start as int + 7),
                    )
                    &&& nlen + 2 <= size
                    &&& start + 5 + size <= old(read_stream).spec_limit()
                    &&& final(read_stream).spec_pos() == start + 7
                },
                Ok(None) => nr == Ok::<Option<crate::format::GRec>, OdsError>(None),
                Err(e) => nr == Err::<Option<crate::format::GRec>, OdsError>(e),
            }
        }),
{
    let ghost b = read_stream@;
    let ghost hi = read_stream.spec_limit();
    let ghost lo0 = read_stream.spec_pos();
    let limit = read_stream.size();
    let mut remaining = n;
    while read_stream.can_read_more()
        invariant
            read_stream.wf(),
            read_stream@ == b,
            read_stream.spec_limit() == hi,
            read_stream.spec_pos() <= hi,
            limit as int == hi,
            crate::format::nth_rec(b, lo0, hi, n as int) == crate::format::nth_rec(
                b,
                read_stream.spec_pos(),
                hi,
                remaining as int,
            ),
        decreases hi - read_stream.spec_pos(),
    {
        let ghost start_g = read_stream.spec_pos();
        let start = read_stream.position();
        let ty = match read_stream.read() {
            Ok(t) => t,
            Err(_) => {
                proof {
                    assert(false);
                }
                return Err(OdsError::UnexpectedEof);
            },
        };
        let size_i = match read_stream.read_i32() {
            Ok(v) => v,
            Err(e) => {
                return Err(e);
            },
        };
        let nlen_i = match read_stream.read_i16() {
            Ok(v) => v,
            Err(e) => {
                return Err(e);
            },
        };
        if size_i < 2 || nlen_i < 0 || (size_i as usize) < (nlen_i as usize) + 2 {
            return Err(OdsError::DecodeError);
        }
        let size_us = size_i as usize;
        let nlen_us = nlen_i as usize;
        if size_us - 2 > limit - (start + 7) {
            return Err(OdsError::UnexpectedEof);
        }
        if remaining == 0 {
            return Ok(Some((ty, start, size_us, nlen_us)));
        }
        remaining = remaining - 1;
        read_stream.set_position(start + 5 + size_us);
    }
    Ok(None)
}

} // verus!

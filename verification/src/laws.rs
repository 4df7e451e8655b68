//! The library's laws: properties that relate the spec functions the public
//! contracts are stated over, proved once and for all.

use vstd::prelude::*;

use crate::error::OdsError;
use crate::format::{
    apply_patches, be_i16, be_i32, be_u16, be_u32, be_u64, decode_rec, decode_value, i16_as_u16,
    i32_as_u32, i64_as_u64, id_of, lemma_apply_patches_below, lemma_apply_patches_frame,
    lemma_apply_patches_reads, lemma_be_u16_roundtrip,
    lemma_be_u32_roundtrip, lemma_be_u64_roundtrip, lemma_scan_path_props,
    lemma_split_at_dots_len, parse_list, rec_at, rec_of_tag, rec_off, scan_path, splice,
    u16_be_bytes,
    u32_be_bytes, u64_be_bytes, value_enc, wf_gtag, GOutcome, GPatch, GRec, GScan, GTag, GValue,
};
use crate::ods::path_segments;
use crate::ods::{delete_result, repair_patches, replace_result, scan_of};

verus! {

// Decoding the value bytes written for a value gives the value back.
proof fn lemma_value_round_trip(v: GValue)
    requires
        v matches GValue::GChar(c) ==> c as u32 <= 255,
    ensures
        decode_value(id_of(v), value_enc(v)) == Ok::<GValue, OdsError>(v),
{
    match v {
        GValue::GStr(s) => {
            vstd::utf8::encode_utf8_valid_utf8(s);
            vstd::utf8::encode_utf8_decode_utf8(s);
        },
        GValue::GInt(x) => {
            let u = i32_as_u32(x);
            lemma_be_u32_roundtrip(u);
            assert(value_enc(v).subrange(0, 4) =~= u32_be_bytes(u));
            assert(be_i32(u32_be_bytes(u)) == x as int);
        },
        GValue::GFloat(bits) => {
            lemma_be_u32_roundtrip(bits);
            assert(value_enc(v).subrange(0, 4) =~= u32_be_bytes(bits));
        },
        GValue::GDouble(bits) => {
            lemma_be_u64_roundtrip(bits);
            assert(value_enc(v).subrange(0, 8) =~= u64_be_bytes(bits));
        },
        GValue::GShort(x) => {
            let u = i16_as_u16(x);
            lemma_be_u16_roundtrip(u);
            assert(value_enc(v).subrange(0, 2) =~= u16_be_bytes(u));
            assert(be_i16(u16_be_bytes(u)) == x as int);
        },
        GValue::GLong(x) => {
            let u = i64_as_u64(x);
            lemma_be_u64_roundtrip(u);
            assert(value_enc(v).subrange(0, 8) =~= u64_be_bytes(u));
            assert(crate::format::be_i64(u64_be_bytes(u)) == x as int);
        },
        GValue::GChar(c) => {
            let code = c as u32;
            let byte = (code % 0x100) as u8;
            assert(byte as u32 == code);
            vstd::utf8::char_u32_cast(c, code);
            assert(byte as char == c);
        },
        GValue::GByte(x) => {
        },
        GValue::GCont(d) => {
        },
    }
}

/// Law: encoding a tag as a record and decoding that record gives the tag
/// back — name, value, and type id all preserved.
pub proof fn lemma_round_trip(t: GTag)
    requires
        wf_gtag(t),
    ensures
        decode_rec(rec_of_tag(t)) == Ok::<GTag, OdsError>(t),
{
    vstd::utf8::encode_utf8_valid_utf8(t.name);
    vstd::utf8::encode_utf8_decode_utf8(t.name);
    lemma_value_round_trip(t.value);
}

/// The result the resolver's contract pins down for a buffer and a key:
/// whether the key's path hits a record, or the error when the bytes cannot
/// be interpreted.
pub open spec fn find_result(b: Seq<u8>, key: Seq<char>) -> Result<bool, OdsError> {
    match scan_of(b, key).outcome {
        GOutcome::Hit(_) => Ok(true),
        GOutcome::Absent => Ok(false),
        GOutcome::Fail(e) => Err(e),
    }
}

/// What `find` promises of its result: it reflects the scan's outcome.
pub open spec fn find_agrees(b: Seq<u8>, key: Seq<char>, r: Result<bool, OdsError>) -> bool {
    match r {
        Ok(found) => (found <==> scan_of(b, key).outcome matches GOutcome::Hit(_)) && (!found
            <==> scan_of(b, key).outcome is Absent),
        Err(e) => scan_of(b, key).outcome == GOutcome::Fail(e),
    }
}

/// Law: `find` is idempotent. It borrows the buffer immutably, so the buffer
/// cannot change, and any two results its contract admits for the same buffer
/// and key are the same boolean (or the same error).
pub proof fn lemma_find_idempotent(
    b: Seq<u8>,
    key: Seq<char>,
    r1: Result<bool, OdsError>,
    r2: Result<bool, OdsError>,
)
    requires
        find_agrees(b, key, r1),
        find_agrees(b, key, r2),
    ensures
        r1 == r2,
        r1 == find_result(b, key),
{
    match scan_of(b, key).outcome {
        GOutcome::Hit(_) => {},
        GOutcome::Absent => {},
        GOutcome::Fail(_) => {},
    }
}


// ---------------------------------------------------------------------------
// Scan-order determinism
// ---------------------------------------------------------------------------

/// The least index of a record with the given name, or the list's length when
/// there is none.
pub open spec fn first_with_name(recs: Seq<GRec>, name: Seq<u8>) -> int
    decreases recs.len(),
{
    if recs.len() == 0 {
        0
    } else if recs[0].name == name {
        0
    } else {
        1 + first_with_name(recs.subrange(1, recs.len() as int), name)
    }
}

pub proof fn lemma_first_with_name_bounds(recs: Seq<GRec>, name: Seq<u8>)
    ensures
        0 <= first_with_name(recs, name) <= recs.len(),
        first_with_name(recs, name) < recs.len() ==> recs[first_with_name(recs, name)].name == name,
        forall|j: int| 0 <= j < first_with_name(recs, name) ==> recs[j].name != name,
    decreases recs.len(),
{
    if recs.len() == 0 {
    } else if recs[0].name == name {
    } else {
        let tail = recs.subrange(1, recs.len() as int);
        lemma_first_with_name_bounds(tail, name);
        let fi = first_with_name(recs, name);
        if fi < recs.len() {
            assert(recs[fi] == tail[fi - 1]);
        }
        assert forall|j: int| 0 <= j < fi implies recs[j].name != name by {
            if j >= 1 {
                assert(recs[j] == tail[j - 1]);
            }
        }
    }
}

/// Law: path resolution is scan-order-deterministic. On a byte range that
/// parses as a record list, a scan for its last path segment never fails, hits
/// exactly the first record in byte order whose name equals the segment, and
/// is absent exactly when no record's name equals it. Two sibling records with
/// the same name are therefore always resolved to the earlier one.
pub proof fn lemma_scan_first_match(b: Seq<u8>, lo: int, hi: int, segs: Seq<Seq<u8>>, k: int)
    requires
        0 <= lo <= hi <= b.len(),
        0 <= k == segs.len() - 1,
        parse_list(b, lo, hi) is Ok,
    ensures
        ({
            let recs = parse_list(b, lo, hi).unwrap();
            let sc = scan_path(b, lo, hi, segs, k);
            let fi = first_with_name(recs, segs[k]);
            &&& !(sc.outcome is Fail)
            &&& (sc.outcome matches GOutcome::Hit(h) ==> fi < recs.len() && rec_at(b, h.start)
                == recs[fi] && h.start == rec_off(b, lo, fi) && h.size == be_i32(
                b.subrange(h.start + 1, h.start + 5),
            ))
            &&& (sc.outcome is Absent <==> fi == recs.len())
        }),
    decreases hi - lo,
{
    let recs = parse_list(b, lo, hi).unwrap();
    let sc = scan_path(b, lo, hi, segs, k);
    let seg = segs[k];
    if lo >= hi {
        assert(recs =~= Seq::<GRec>::empty());
    } else {
        let size = be_i32(b.subrange(lo + 1, lo + 5));
        let nlen = be_i16(b.subrange(lo + 5, lo + 7));
        let rec0 = rec_at(b, lo);
        let tail = parse_list(b, lo + 5 + size, hi).unwrap();
        assert(recs == seq![rec0] + tail);
        assert(recs[0] == rec0);
        assert(recs.subrange(1, recs.len() as int) =~= tail);
        assert(rec0.name == b.subrange(lo + 7, lo + 7 + nlen));
        if nlen == seg.len() && b.subrange(lo + 7, lo + 7 + nlen) == seg {
            // The scan stops here, at the first record whose name matches.
            assert(first_with_name(recs, seg) == 0);
        } else {
            assert(rec0.name != seg);
            lemma_scan_first_match(b, lo + 5 + size, hi, segs, k);
            assert(first_with_name(recs, seg) == 1 + first_with_name(tail, seg));
            assert(scan_path(b, lo, hi, segs, k) == scan_path(b, lo + 5 + size, hi, segs, k));
            match scan_path(b, lo + 5 + size, hi, segs, k).outcome {
                GOutcome::Hit(h) => {
                    let fi2 = first_with_name(tail, seg);
                    lemma_first_with_name_bounds(tail, seg);
                    assert(0 <= fi2 < tail.len());
                    assert(recs.len() == 1 + tail.len());
                    assert((seq![rec0] + tail)[1 + fi2] == tail[fi2]);
                    assert(recs[1 + fi2] == tail[fi2]);
                },
                _ => {},
            }
        }
    }
}


// ---------------------------------------------------------------------------
// Ancestor size-field repair
// ---------------------------------------------------------------------------

/// Law: after replacing the record a key resolves to with `repl`, every
/// matched ancestor container's on-disk size field holds its old size minus
/// the removed record's full footprint plus the replacement's length — the
/// exact length change of that ancestor's contents.
pub proof fn lemma_replace_ancestor_sizes(b: Seq<u8>, key: Seq<char>, repl: Seq<u8>)
    requires
        b.len() + repl.len() <= 0x7FFF_FFFF,
        scan_of(b, key).outcome matches GOutcome::Hit(_),
    ensures
        ({
            let sc = scan_of(b, key);
            let h = sc.outcome->Hit_0;
            let b2 = replace_result(b, sc, h, repl);
            &&& b2.len() == b.len() - (h.size + 5) + repl.len()
            &&& forall|i: int|
                0 <= i < sc.chain.len() ==> be_u32(
                    b2.subrange((#[trigger] sc.chain[i]).start + 1, sc.chain[i].start + 5),
                ) == sc.chain[i].size - (h.size + 5) + repl.len()
        }),
{
    lemma_split_at_dots_len(vstd::utf8::encode_utf8(key));
    lemma_scan_path_props(b, 0, b.len() as int, path_segments(key), 0);
    let sc = scan_of(b, key);
    let h = sc.outcome->Hit_0;
    let delta = repl.len() as int;
    let spliced = splice(b, h.start, h.start + 5 + h.size, repl);
    assert(spliced.len() == b.len() - (h.size + 5) + delta);
    let ps = repair_patches(sc.chain, h, delta);
    assert forall|j: int|
        0 <= j < ps.len() implies 0 <= (#[trigger] ps[j]).at && ps[j].at + 4
        <= spliced.len() by {
        assert(ps[j].at == sc.chain[j].start + 1);
        assert(sc.chain[j].start + 7 <= h.start);
    }
    assert forall|j: int|
        0 <= j < ps.len() - 1 implies (#[trigger] ps[j]).at + 4 <= ps[j + 1].at by {
        assert(ps[j].at == sc.chain[j].start + 1);
        assert(ps[j + 1].at == sc.chain[j + 1].start + 1);
    }
    lemma_apply_patches_below(spliced, ps, 0);
    assert forall|i: int|
        0 <= i < sc.chain.len() implies be_u32(
        replace_result(b, sc, h, repl).subrange(
            (#[trigger] sc.chain[i]).start + 1,
            sc.chain[i].start + 5,
        ),
    ) == sc.chain[i].size - (h.size + 5) + delta by {
        let c = sc.chain[i];
        // The ancestor's record strictly contains the hit, so its size covers
        // the hit's footprint with room for its own header.
        assert(c.start + 7 <= h.start);
        assert(h.start + 5 + h.size <= c.start + 5 + c.size);
        assert(c.size - (h.size + 5) >= 2);
        assert(c.start + 5 + c.size <= b.len());
        let v = c.size - (h.size + 5) + delta;
        assert(0 <= v <= 0x7FFF_FFFF);
        lemma_apply_patches_reads(spliced, ps, i);
        assert(ps[i].at == c.start + 1);
        assert(ps[i].size == i32_as_u32(v as i32));
        assert(i32_as_u32(v as i32) == v as u32);
        lemma_be_u32_roundtrip(v as u32);
    }
}

/// Law: after a delete, every matched ancestor container's on-disk size field
/// holds its old size minus the deleted record's full footprint.
pub proof fn lemma_delete_ancestor_sizes(b: Seq<u8>, key: Seq<char>)
    requires
        b.len() < 0x7FFF_FFFF,
        scan_of(b, key).outcome matches GOutcome::Hit(_),
    ensures
        ({
            let sc = scan_of(b, key);
            let h = sc.outcome->Hit_0;
            let b2 = delete_result(b, sc, h);
            &&& b2.len() == b.len() - (h.size + 5)
            &&& forall|i: int|
                0 <= i < sc.chain.len() ==> be_u32(
                    b2.subrange((#[trigger] sc.chain[i]).start + 1, sc.chain[i].start + 5),
                ) == sc.chain[i].size - (h.size + 5)
        }),
{
    lemma_replace_ancestor_sizes(b, key, Seq::empty());
    let sc = scan_of(b, key);
    let h = sc.outcome->Hit_0;
    assert(delete_result(b, sc, h) == replace_result(b, sc, h, Seq::empty()));
}


// ---------------------------------------------------------------------------
// Parsing under splices
// ---------------------------------------------------------------------------

// A shifted slice of two equal byte ranges is equal.
proof fn lemma_subrange_shift(
    b1: Seq<u8>,
    lo1: int,
    hi1: int,
    b2: Seq<u8>,
    lo2: int,
    hi2: int,
    a: int,
    c: int,
)
    requires
        0 <= lo1 <= hi1 <= b1.len(),
        0 <= lo2 <= hi2 <= b2.len(),
        b1.subrange(lo1, hi1) == b2.subrange(lo2, hi2),
        0 <= a <= c <= hi1 - lo1,
    ensures
        hi1 - lo1 == hi2 - lo2,
        b1.subrange(lo1 + a, lo1 + c) == b2.subrange(lo2 + a, lo2 + c),
{
    assert(b1.subrange(lo1, hi1).len() == hi1 - lo1);
    assert(b2.subrange(lo2, hi2).len() == hi2 - lo2);
    assert forall|i: int|
        0 <= i < c - a implies #[trigger] b1.subrange(lo1 + a, lo1 + c)[i] == b2.subrange(
        lo2 + a,
        lo2 + c,
    )[i] by {
        assert(b1.subrange(lo1, hi1)[a + i] == b2.subrange(lo2, hi2)[a + i]);
        assert(b1.subrange(lo1, hi1)[a + i] == b1[lo1 + a + i]);
        assert(b2.subrange(lo2, hi2)[a + i] == b2[lo2 + a + i]);
        assert(b1.subrange(lo1 + a, lo1 + c)[i] == b1[lo1 + a + i]);
        assert(b2.subrange(lo2 + a, lo2 + c)[i] == b2[lo2 + a + i]);
    }
    assert(b1.subrange(lo1 + a, lo1 + c) =~= b2.subrange(lo2 + a, lo2 + c));
}

// Parsing depends only on the byte range's contents: equal ranges parse to
// equal record lists.
proof fn lemma_parse_translate(b1: Seq<u8>, lo1: int, hi1: int, b2: Seq<u8>, lo2: int, hi2: int)
    requires
        0 <= lo1 <= hi1 <= b1.len(),
        0 <= lo2 <= hi2 <= b2.len(),
        b1.subrange(lo1, hi1) == b2.subrange(lo2, hi2),
    ensures
        parse_list(b1, lo1, hi1) == parse_list(b2, lo2, hi2),
    decreases hi1 - lo1,
{
    assert(b1.subrange(lo1, hi1).len() == hi1 - lo1);
    assert(b2.subrange(lo2, hi2).len() == hi2 - lo2);
    if lo1 >= hi1 {
    } else if lo1 + 7 > hi1 {
    } else {
        lemma_subrange_shift(b1, lo1, hi1, b2, lo2, hi2, 1, 5);
        lemma_subrange_shift(b1, lo1, hi1, b2, lo2, hi2, 5, 7);
        let size = be_i32(b1.subrange(lo1 + 1, lo1 + 5));
        let nlen = be_i16(b1.subrange(lo1 + 5, lo1 + 7));
        if size < 2 || nlen < 0 || size < nlen + 2 {
        } else if lo1 + 5 + size > hi1 {
        } else {
            lemma_subrange_shift(b1, lo1, hi1, b2, lo2, hi2, 0, 1);
            assert(b1.subrange(lo1, lo1 + 1)[0] == b1[lo1]);
            assert(b2.subrange(lo2, lo2 + 1)[0] == b2[lo2]);
            assert(b1[lo1] == b2[lo2]);
            lemma_subrange_shift(b1, lo1, hi1, b2, lo2, hi2, 7, 7 + nlen);
            lemma_subrange_shift(b1, lo1, hi1, b2, lo2, hi2, 7 + nlen, 5 + size);
            assert(rec_at(b1, lo1) == rec_at(b2, lo2));
            lemma_subrange_shift(b1, lo1, hi1, b2, lo2, hi2, 5 + size, hi1 - lo1);
            lemma_parse_translate(b1, lo1 + 5 + size, hi1, b2, lo2 + 5 + size, hi2);
        }
    }
}

// Record lists that tile adjacent ranges parse as their concatenation.
proof fn lemma_parse_concat(x: Seq<u8>, lo: int, mid: int, hi: int)
    requires
        0 <= lo <= mid <= hi <= x.len(),
        parse_list(x, lo, mid) is Ok,
        parse_list(x, mid, hi) is Ok,
    ensures
        parse_list(x, lo, hi) == Ok::<Seq<GRec>, OdsError>(
            parse_list(x, lo, mid).unwrap() + parse_list(x, mid, hi).unwrap(),
        ),
    decreases mid - lo,
{
    let r2 = parse_list(x, mid, hi).unwrap();
    if lo >= mid {
        assert(Seq::<GRec>::empty() + r2 =~= r2);
    } else {
        let size = be_i32(x.subrange(lo + 1, lo + 5));
        lemma_parse_concat(x, lo + 5 + size, mid, hi);
        let t1 = parse_list(x, lo + 5 + size, mid).unwrap();
        let rec0 = rec_at(x, lo);
        assert(seq![rec0] + (t1 + r2) =~= (seq![rec0] + t1) + r2);
    }
}

// A storable record's encoding parses as exactly that record.
proof fn lemma_enc_parses(r: GRec)
    requires
        r.wf(),
    ensures
        r.enc().len() == 5 + r.body_size(),
        parse_list(r.enc(), 0, r.enc().len() as int) == Ok::<Seq<GRec>, OdsError>(seq![r]),
{
    let e = r.enc();
    let body = r.body_size();
    let nlen = r.name.len() as int;
    assert(e.len() == 5 + body);
    assert(e.subrange(1, 5) =~= u32_be_bytes(body as u32));
    lemma_be_u32_roundtrip(body as u32);
    assert(be_i32(e.subrange(1, 5)) == body);
    assert(e.subrange(5, 7) =~= u16_be_bytes(r.name.len() as u16));
    lemma_be_u16_roundtrip(r.name.len() as u16);
    assert(be_i16(e.subrange(5, 7)) == nlen);
    assert(e[0] == r.ty);
    assert(e.subrange(7, 7 + nlen) =~= r.name);
    assert(e.subrange(7 + nlen, 5 + body) =~= r.value);
    assert(rec_at(e, 0) == r);
    assert(parse_list(e, 5 + body, 5 + body) == Ok::<Seq<GRec>, OdsError>(seq![]));
    assert(seq![r] + Seq::<GRec>::empty() =~= seq![r]);
}

// Splicing replacement bytes over one record of a parsed list gives a list
// that parses to the same records with that one replaced by whatever the
// replacement bytes parse to.
proof fn lemma_parse_splice(b: Seq<u8>, lo: int, hi: int, n: int, repl: Seq<u8>)
    requires
        0 <= lo <= hi <= b.len(),
        parse_list(b, lo, hi) is Ok,
        0 <= n < parse_list(b, lo, hi).unwrap().len(),
        parse_list(repl, 0, repl.len() as int) is Ok,
    ensures
        ({
            let recs = parse_list(b, lo, hi).unwrap();
            let p = rec_off(b, lo, n);
            let sz = be_i32(b.subrange(p + 1, p + 5));
            let b2 = splice(b, p, p + 5 + sz, repl);
            &&& lo <= p
            &&& 2 <= sz
            &&& p + 5 + sz <= hi
            &&& 0 <= be_i16(b.subrange(p + 5, p + 7))
            &&& be_i16(b.subrange(p + 5, p + 7)) + 2 <= sz
            &&& rec_at(b, p) == recs[n]
            &&& b2.len() == b.len() - (5 + sz) + repl.len()
            &&& parse_list(b2, lo, hi - (5 + sz) + repl.len()) == Ok::<Seq<GRec>, OdsError>(
                recs.subrange(0, n) + parse_list(repl, 0, repl.len() as int).unwrap()
                    + recs.subrange(n + 1, recs.len() as int),
            )
        }),
    decreases n,
{
    let recs = parse_list(b, lo, hi).unwrap();
    let rrecs = parse_list(repl, 0, repl.len() as int).unwrap();
    let size0 = be_i32(b.subrange(lo + 1, lo + 5));
    let rec0 = rec_at(b, lo);
    let tail = parse_list(b, lo + 5 + size0, hi).unwrap();
    assert(recs == seq![rec0] + tail);
    let p = rec_off(b, lo, n);
    if n == 0 {
        let sz = size0;
        let b2 = splice(b, lo, lo + 5 + sz, repl);
        let hi2 = hi - (5 + sz) + repl.len();
        assert(b2.len() == b.len() - (5 + sz) + repl.len());
        assert(b2.subrange(lo, lo + repl.len() as int) =~= repl.subrange(0, repl.len() as int));
        lemma_parse_translate(b2, lo, lo + repl.len() as int, repl, 0, repl.len() as int);
        assert(b2.subrange(lo + repl.len() as int, hi2) =~= b.subrange(lo + 5 + sz, hi));
        lemma_parse_translate(b2, lo + repl.len() as int, hi2, b, lo + 5 + sz, hi);
        lemma_parse_concat(b2, lo, lo + repl.len() as int, hi2);
        assert(recs.subrange(0, 0) =~= Seq::<GRec>::empty());
        assert(recs.subrange(1, recs.len() as int) =~= tail);
        assert(Seq::<GRec>::empty() + rrecs + tail =~= rrecs + tail);
    } else {
        lemma_parse_splice(b, lo + 5 + size0, hi, n - 1, repl);
        let p2 = rec_off(b, lo + 5 + size0, n - 1);
        assert(p == p2);
        let sz = be_i32(b.subrange(p + 1, p + 5));
        let b2 = splice(b, p, p + 5 + sz, repl);
        let hi2 = hi - (5 + sz) + repl.len();
        assert(recs[n] == tail[n - 1]);
        // The head record's bytes are before the splice point and unchanged.
        assert(lo + 5 + size0 <= p);
        assert forall|j: int| 0 <= j < p implies b2[j] == b[j] by {
            assert(b2[j] == b.subrange(0, p)[j]);
        }
        assert(b2.subrange(lo + 1, lo + 5) =~= b.subrange(lo + 1, lo + 5));
        assert(b2.subrange(lo + 5, lo + 7) =~= b.subrange(lo + 5, lo + 7));
        let nlen0 = be_i16(b.subrange(lo + 5, lo + 7));
        assert(b2[lo] == b[lo]);
        assert(b2.subrange(lo + 7, lo + 7 + nlen0) =~= b.subrange(lo + 7, lo + 7 + nlen0));
        assert(b2.subrange(lo + 7 + nlen0, lo + 5 + size0) =~= b.subrange(
            lo + 7 + nlen0,
            lo + 5 + size0,
        ));
        assert(rec_at(b2, lo) == rec0);
        let inner = parse_list(b2, lo + 5 + size0, hi2).unwrap();
        assert(parse_list(b2, lo, hi2) == Ok::<Seq<GRec>, OdsError>(seq![rec0] + inner));
        assert(recs.subrange(0, n) =~= seq![rec0] + tail.subrange(0, n - 1));
        assert(recs.subrange(n + 1, recs.len() as int) =~= tail.subrange(n, tail.len() as int));
        assert(seq![rec0] + (tail.subrange(0, n - 1) + rrecs + tail.subrange(n, tail.len() as int))
            =~= recs.subrange(0, n) + rrecs + recs.subrange(n + 1, recs.len() as int));
    }
}

// A scan that starts at its path's last segment records no ancestors.
proof fn lemma_scan_terminal_chain(b: Seq<u8>, lo: int, hi: int, segs: Seq<Seq<u8>>, k: int)
    requires
        0 <= lo <= hi <= b.len(),
        0 <= k == segs.len() - 1,
    ensures
        scan_path(b, lo, hi, segs, k).chain == Seq::<crate::format::GHit>::empty(),
    decreases hi - lo,
{
    let seg = segs[k];
    if lo >= hi {
    } else if lo + 7 > hi {
    } else {
        let size = be_i32(b.subrange(lo + 1, lo + 5));
        let nlen = be_i16(b.subrange(lo + 5, lo + 7));
        if size < 2 {
        } else if nlen == seg.len() && lo + 7 + nlen > hi {
        } else if nlen == seg.len() && b.subrange(lo + 7, lo + 7 + nlen) == seg {
        } else {
            let next = if lo + 5 + size > hi {
                hi
            } else {
                lo + 5 + size
            };
            lemma_scan_terminal_chain(b, next, hi, segs, k);
        }
    }
}

// ---------------------------------------------------------------------------
// Delete-then-find and replace consistency at the top level
// ---------------------------------------------------------------------------

/// Law: deleting a top-level record removes it from view. For a single-segment
/// key over a buffer whose top level parses, when the key resolves and no
/// other record shares its name, resolving the same key on the deleted buffer
/// finds nothing. (With duplicate sibling names the scan finds the next
/// duplicate instead, by design, so those inputs are excluded.)
pub proof fn lemma_delete_then_find(b: Seq<u8>, key: Seq<char>)
    requires
        parse_list(b, 0, b.len() as int) is Ok,
        path_segments(key).len() == 1,
        scan_of(b, key).outcome matches GOutcome::Hit(_),
        ({
            let recs = parse_list(b, 0, b.len() as int).unwrap();
            let seg = path_segments(key)[0];
            forall|i: int, j: int|
                0 <= i < j < recs.len() ==> !((#[trigger] recs[i]).name == seg && (
                #[trigger] recs[j]).name == seg)
        }),
    ensures
        ({
            let sc = scan_of(b, key);
            let h = sc.outcome->Hit_0;
            scan_of(delete_result(b, sc, h), key).outcome is Absent
        }),
{
    let segs = path_segments(key);
    let recs = parse_list(b, 0, b.len() as int).unwrap();
    let seg = segs[0];
    lemma_scan_first_match(b, 0, b.len() as int, segs, 0);
    lemma_first_with_name_bounds(recs, seg);
    let sc = scan_of(b, key);
    let h = sc.outcome->Hit_0;
    let fi = first_with_name(recs, seg);
    lemma_parse_splice(b, 0, b.len() as int, fi, Seq::empty());
    let spliced = splice(b, h.start, h.start + 5 + h.size, Seq::empty());
    lemma_scan_terminal_chain(b, 0, b.len() as int, segs, 0);
    assert(repair_patches(sc.chain, h, 0) =~= Seq::<GPatch>::empty());
    assert(delete_result(b, sc, h) == spliced);
    let empty_parse = parse_list(Seq::<u8>::empty(), 0, 0).unwrap();
    assert(empty_parse =~= Seq::<GRec>::empty());
    let recs2 = recs.subrange(0, fi) + empty_parse + recs.subrange(fi + 1, recs.len() as int);
    let hi2 = b.len() - (5 + h.size);
    assert(parse_list(spliced, 0, hi2) == Ok::<Seq<GRec>, OdsError>(recs2));
    assert(spliced.len() == hi2);
    // No remaining record carries the deleted name.
    assert forall|m: int| 0 <= m < recs2.len() implies recs2[m].name != seg by {
        if m < fi {
            assert(recs2[m] == recs[m]);
        } else {
            assert(recs2[m] == recs.subrange(fi + 1, recs.len() as int)[m - fi]);
            assert(recs2[m] == recs[m + 1]);
            assert(recs[fi].name == seg);
        }
    }
    lemma_first_with_name_bounds(recs2, seg);
    assert(first_with_name(recs2, seg) == recs2.len());
    lemma_scan_first_match(spliced, 0, hi2, segs, 0);
}

/// Law: replacing a top-level record keeps the whole buffer decodable. For a
/// single-segment key over a buffer whose top level parses, replacing the
/// resolved record with a storable tag's encoding yields a buffer whose top
/// level parses to the same records with that one replaced — so every record's
/// byte range again exactly matches its size field.
pub proof fn lemma_replace_top_level(b: Seq<u8>, key: Seq<char>, t: GTag)
    requires
        parse_list(b, 0, b.len() as int) is Ok,
        path_segments(key).len() == 1,
        scan_of(b, key).outcome matches GOutcome::Hit(_),
        wf_gtag(t),
    ensures
        ({
            let sc = scan_of(b, key);
            let h = sc.outcome->Hit_0;
            let recs = parse_list(b, 0, b.len() as int).unwrap();
            let fi = first_with_name(recs, path_segments(key)[0]);
            parse_list(
                replace_result(b, sc, h, rec_of_tag(t).enc()),
                0,
                b.len() - (5 + h.size) + rec_of_tag(t).enc().len(),
            ) == Ok::<Seq<GRec>, OdsError>(recs.update(fi, rec_of_tag(t)))
        }),
{
    let segs = path_segments(key);
    let recs = parse_list(b, 0, b.len() as int).unwrap();
    let seg = segs[0];
    let enc = rec_of_tag(t).enc();
    lemma_scan_first_match(b, 0, b.len() as int, segs, 0);
    lemma_first_with_name_bounds(recs, seg);
    let sc = scan_of(b, key);
    let h = sc.outcome->Hit_0;
    let fi = first_with_name(recs, seg);
    lemma_enc_parses(rec_of_tag(t));
    lemma_parse_splice(b, 0, b.len() as int, fi, enc);
    let spliced = splice(b, h.start, h.start + 5 + h.size, enc);
    lemma_scan_terminal_chain(b, 0, b.len() as int, segs, 0);
    assert(repair_patches(sc.chain, h, enc.len() as int) =~= Seq::<GPatch>::empty());
    assert(replace_result(b, sc, h, enc) == spliced);
    let rrecs = parse_list(enc, 0, enc.len() as int).unwrap();
    assert(rrecs =~= seq![rec_of_tag(t)]);
    assert(recs.subrange(0, fi) + rrecs + recs.subrange(fi + 1, recs.len() as int) =~= recs.update(
        fi,
        rec_of_tag(t),
    ));
}


// ---------------------------------------------------------------------------
// Descending through parsed levels
// ---------------------------------------------------------------------------

/// No two records in the list carry the given name.
pub open spec fn unique_name(recs: Seq<GRec>, name: Seq<u8>) -> bool {
    forall|i: int, j: int|
        0 <= i < j < recs.len() ==> !((#[trigger] recs[i]).name == name && (#[trigger] recs[j]).name
            == name)
}

/// On a byte range that parses, a scan for a non-terminal segment never fails
/// at this level: it either runs out of records (when no record carries the
/// segment's name) or descends into the first record that does, at that
/// record's offset.
pub proof fn lemma_scan_descend(b: Seq<u8>, lo: int, hi: int, segs: Seq<Seq<u8>>, k: int)
    requires
        0 <= lo <= hi <= b.len(),
        0 <= k < segs.len() - 1,
        parse_list(b, lo, hi) is Ok,
    ensures
        ({
            let recs = parse_list(b, lo, hi).unwrap();
            let sc = scan_path(b, lo, hi, segs, k);
            let fi = first_with_name(recs, segs[k]);
            if fi == recs.len() {
                sc == GScan { chain: Seq::empty(), outcome: GOutcome::Absent }
            } else {
                let p = rec_off(b, lo, fi);
                let sz = be_i32(b.subrange(p + 1, p + 5));
                let inner = scan_path(b, p + 7 + segs[k].len(), p + 5 + sz, segs, k + 1);
                &&& rec_at(b, p) == recs[fi]
                &&& lo <= p
                &&& p + 5 + sz <= hi
                &&& sc == (GScan {
                    chain: seq![crate::format::GHit { start: p, size: sz }] + inner.chain,
                    outcome: inner.outcome,
                })
            }
        }),
    decreases hi - lo,
{
    let recs = parse_list(b, lo, hi).unwrap();
    let sc = scan_path(b, lo, hi, segs, k);
    let seg = segs[k];
    lemma_first_with_name_bounds(recs, seg);
    if lo >= hi {
        assert(recs =~= Seq::<GRec>::empty());
    } else {
        let size = be_i32(b.subrange(lo + 1, lo + 5));
        let nlen = be_i16(b.subrange(lo + 5, lo + 7));
        let rec0 = rec_at(b, lo);
        let tail = parse_list(b, lo + 5 + size, hi).unwrap();
        assert(recs == seq![rec0] + tail);
        assert(recs[0] == rec0);
        assert(recs.subrange(1, recs.len() as int) =~= tail);
        assert(rec0.name == b.subrange(lo + 7, lo + 7 + nlen));
        if nlen == seg.len() && b.subrange(lo + 7, lo + 7 + nlen) == seg {
            assert(first_with_name(recs, seg) == 0);
            assert(rec_off(b, lo, 0) == lo);
        } else {
            assert(rec0.name != seg);
            lemma_scan_descend(b, lo + 5 + size, hi, segs, k);
            assert(first_with_name(recs, seg) == 1 + first_with_name(tail, seg));
            assert(scan_path(b, lo, hi, segs, k) == scan_path(b, lo + 5 + size, hi, segs, k));
            let fi2 = first_with_name(tail, seg);
            lemma_first_with_name_bounds(tail, seg);
            if fi2 < tail.len() {
                assert(recs[1 + fi2] == tail[fi2]);
                assert(rec_off(b, lo, 1 + fi2) == rec_off(b, lo + 5 + size, fi2));
            }
        }
    }
}


// Chains whose consecutive starts are seven bytes apart are ordered overall.
proof fn lemma_chain_sorted(ch: Seq<crate::format::GHit>, i: int, j: int)
    requires
        forall|m: int| 0 <= m < ch.len() - 1 ==> (#[trigger] ch[m]).start + 7 <= ch[m + 1].start,
        0 <= i <= j < ch.len(),
    ensures
        i < j ==> ch[i].start + 7 <= ch[j].start,
    decreases j - i,
{
    if i < j {
        lemma_chain_sorted(ch, i + 1, j);
    }
}

// Lists whose records carry the same names in order share their first match.
proof fn lemma_first_with_name_names(r1: Seq<GRec>, r2: Seq<GRec>, name: Seq<u8>)
    requires
        r1.len() == r2.len(),
        forall|i: int| 0 <= i < r1.len() ==> (#[trigger] r1[i]).name == r2[i].name,
    ensures
        first_with_name(r1, name) == first_with_name(r2, name),
    decreases r1.len(),
{
    if r1.len() == 0 {
    } else if r1[0].name == name {
    } else {
        let t1 = r1.subrange(1, r1.len() as int);
        let t2 = r2.subrange(1, r2.len() as int);
        assert forall|i: int| 0 <= i < t1.len() implies (#[trigger] t1[i]).name == t2[i].name by {
            assert(t1[i] == r1[i + 1]);
            assert(t2[i] == r2[i + 1]);
        }
        lemma_first_with_name_names(t1, t2, name);
    }
}

// The offset of the n-th record of a parsed list lies within the list's range.
proof fn lemma_rec_off_parse(b: Seq<u8>, lo: int, hi: int, n: int)
    requires
        0 <= lo <= hi <= b.len(),
        parse_list(b, lo, hi) is Ok,
        0 <= n <= parse_list(b, lo, hi).unwrap().len(),
    ensures
        lo <= rec_off(b, lo, n) <= hi,
        n >= 1 ==> lo + 7 <= rec_off(b, lo, n),
    decreases n,
{
    if n >= 1 {
        let size = be_i32(b.subrange(lo + 1, lo + 5));
        let tail = parse_list(b, lo + 5 + size, hi).unwrap();
        assert(parse_list(b, lo, hi).unwrap().len() == 1 + tail.len());
        lemma_rec_off_parse(b, lo + 5 + size, hi, n - 1);
    }
}

// Two buffers that agree below a record offset agree on that offset.
proof fn lemma_rec_off_agree(b: Seq<u8>, b2: Seq<u8>, lo: int, hi: int, n: int)
    requires
        0 <= lo <= hi <= b.len(),
        parse_list(b, lo, hi) is Ok,
        0 <= n <= parse_list(b, lo, hi).unwrap().len(),
        forall|x: int| lo <= x < rec_off(b, lo, n) ==> b2[x] == b[x],
        rec_off(b, lo, n) <= b2.len(),
    ensures
        rec_off(b2, lo, n) == rec_off(b, lo, n),
    decreases n,
{
    if n >= 1 {
        let size = be_i32(b.subrange(lo + 1, lo + 5));
        let tail = parse_list(b, lo + 5 + size, hi).unwrap();
        assert(parse_list(b, lo, hi).unwrap().len() == 1 + tail.len());
        lemma_rec_off_parse(b, lo + 5 + size, hi, n - 1);
        assert(lo + 5 + size <= rec_off(b, lo, n));
        assert(b2.subrange(lo + 1, lo + 5) =~= b.subrange(lo + 1, lo + 5));
        lemma_rec_off_agree(b, b2, lo + 5 + size, hi, n - 1);
    }
}


// ---------------------------------------------------------------------------
// Delete-then-find along a nested path
// ---------------------------------------------------------------------------

/// Whether `x` lies inside the size-field patch region of some chain entry.
pub open spec fn within_patch(ch: Seq<crate::format::GHit>, x: int) -> bool {
    exists|i: int| 0 <= i < ch.len() && (#[trigger] ch[i]).start + 1 <= x < ch[i].start + 5
}

/// Every level a path's scan descends through parses as a record list whose
/// records carry the level's segment name at most once.
pub open spec fn levels_clean(b: Seq<u8>, lo: int, hi: int, segs: Seq<Seq<u8>>, k: int) -> bool
    decreases segs.len() - k,
        when 0 <= k < segs.len()
{
    &&& parse_list(b, lo, hi) is Ok
    &&& unique_name(parse_list(b, lo, hi).unwrap(), segs[k])
    &&& (k < segs.len() - 1 ==> {
        let recs = parse_list(b, lo, hi).unwrap();
        let fi = first_with_name(recs, segs[k]);
        fi < recs.len() ==> {
            let p = rec_off(b, lo, fi);
            let sz = be_i32(b.subrange(p + 1, p + 5));
            levels_clean(b, p + 7 + segs[k].len() as int, p + 5 + sz, segs, k + 1)
        }
    })
}



// A byte block whose size field names exactly the bytes that follow parses as
// one record.
proof fn lemma_block_parses_as_record(c: Seq<u8>, nlen: int)
    requires
        7 <= c.len(),
        be_i32(c.subrange(1, 5)) == c.len() - 5,
        be_i16(c.subrange(5, 7)) == nlen,
        0 <= nlen,
        nlen + 2 <= c.len() - 5,
    ensures
        parse_list(c, 0, c.len() as int) == Ok::<Seq<GRec>, OdsError>(seq![rec_at(c, 0)]),
        rec_at(c, 0).name == c.subrange(7, 7 + nlen),
{
    assert(parse_list(c, c.len() as int, c.len() as int) == Ok::<Seq<GRec>, OdsError>(seq![]));
    assert(seq![rec_at(c, 0)] + Seq::<GRec>::empty() =~= seq![rec_at(c, 0)]);
}


// At one level, the buffer after the deletion and this level's size-field
// patch equals the original with the containing record's bytes replaced by
// their new, shrunken form.
proof fn lemma_level_equals_splice(
    b: Seq<u8>,
    b2: Seq<u8>,
    h: crate::format::GHit,
    lo: int,
    hi: int,
    p: int,
    sz: int,
)
    requires
        0 <= lo <= p,
        p + 5 + sz <= hi <= b.len(),
        hi - (h.size + 5) <= b2.len(),
        2 <= h.size,
        h.size + 5 <= sz,
        p <= h.start,
        h.start + 5 + h.size <= p + 5 + sz,
        forall|x: int| lo <= x < p ==> b2[x] == b[x],
        forall|x: int| h.start + 5 + h.size <= x < hi ==> b2[x - (h.size + 5)] == b[x],
    ensures
        b2.subrange(lo, hi - (h.size + 5)) == splice(
            b,
            p,
            p + 5 + sz,
            b2.subrange(p, p + 5 + sz - (h.size + 5)),
        ).subrange(lo, hi - (h.size + 5)),
{
    let d = h.size + 5;
    let new_c = b2.subrange(p, p + 5 + sz - d);
    let spl = splice(b, p, p + 5 + sz, new_c);
    assert(new_c.len() == 5 + sz - d);
    assert(spl.len() == b.len() - d);
    assert forall|j: int|
        0 <= j < hi - d - lo implies #[trigger] b2.subrange(lo, hi - d)[j] == spl.subrange(
        lo,
        hi - d,
    )[j] by {
        let x = lo + j;
        assert(b2.subrange(lo, hi - d)[j] == b2[x]);
        assert(spl.subrange(lo, hi - d)[j] == spl[x]);
        if x < p {
            assert(spl[x] == b[x]);
            assert(b2[x] == b[x]);
        } else if x < p + 5 + sz - d {
            assert(spl[x] == new_c[x - p]);
            assert(new_c[x - p] == b2[x]);
        } else {
            assert(spl[x] == b[x + d]);
            assert(x + d >= h.start + 5 + h.size);
            assert(b2[x] == b[x + d]);
        }
    }
    assert(b2.subrange(lo, hi - d) =~= spl.subrange(lo, hi - d));
}

// After a deletion deep inside the record at index `fi` of a parsed level,
// with that record's size field (and only it, at this level) rewritten to its
// shrunken size, the level still parses: same records, same names, same
// offsets up to the rewritten one.
#[verifier::rlimit(100)]
proof fn lemma_patched_level(
    b: Seq<u8>,
    b2: Seq<u8>,
    ch: Seq<crate::format::GHit>,
    h: crate::format::GHit,
    lo: int,
    hi: int,
    fi: int,
)
    requires
        0 <= lo <= hi <= b.len(),
        hi - (h.size + 5) <= b2.len(),
        parse_list(b, lo, hi) is Ok,
        0 <= fi < parse_list(b, lo, hi).unwrap().len(),
        2 <= h.size,
        ({
            let p = rec_off(b, lo, fi);
            let sz = be_i32(b.subrange(p + 1, p + 5));
            let nlen = be_i16(b.subrange(p + 5, p + 7));
            &&& ch.len() >= 1
            &&& ch[0] == (crate::format::GHit { start: p, size: sz })
            &&& 0 <= nlen
            &&& nlen + 2 <= sz
            &&& sz <= 0x7FFF_FFFF
            &&& lo <= p
            &&& p + 5 + sz <= hi
            &&& p + 7 + nlen <= h.start
            &&& h.start + 5 + h.size <= p + 5 + sz
            &&& (forall|i: int|
                1 <= i < ch.len() ==> p + 7 + nlen + 1 <= (#[trigger] ch[i]).start + 1)
        }),
        forall|x: int| lo <= x < h.start && !within_patch(ch, x) ==> b2[x] == b[x],
        forall|x: int| h.start + 5 + h.size <= x < hi ==> b2[x - (h.size + 5)] == b[x],
        forall|i: int|
            0 <= i < ch.len() ==> b2.subrange((#[trigger] ch[i]).start + 1, ch[i].start + 5)
                == u32_be_bytes(i32_as_u32((ch[i].size - (h.size + 5)) as i32)),
    ensures
        ({
            let d = h.size + 5;
            let recs = parse_list(b, lo, hi).unwrap();
            let p = rec_off(b, lo, fi);
            let sz = be_i32(b.subrange(p + 1, p + 5));
            &&& parse_list(b2, lo, hi - d) is Ok
            &&& parse_list(b2, lo, hi - d).unwrap().len() == recs.len()
            &&& (forall|i: int|
                0 <= i < recs.len() ==> (#[trigger] parse_list(b2, lo, hi - d).unwrap()[i]).name
                    == recs[i].name)
            &&& rec_off(b2, lo, fi) == p
            &&& be_i32(b2.subrange(p + 1, p + 5)) == sz - d
        }),
{
    let d = h.size + 5;
    let recs = parse_list(b, lo, hi).unwrap();
    let p = rec_off(b, lo, fi);
    let sz = be_i32(b.subrange(p + 1, p + 5));
    let nlen = be_i16(b.subrange(p + 5, p + 7));
    let lo_in = p + 7 + nlen;
    // At this level only the matched record's own size field lies inside a
    // patch region.
    assert forall|x: int|
        lo <= x < lo_in && !(p + 1 <= x < p + 5) implies !within_patch(ch, x) by {
        assert forall|i: int|
            0 <= i < ch.len() implies !((#[trigger] ch[i]).start + 1 <= x < ch[i].start + 5) by {
            if i == 0 {
                assert(ch[0].start == p);
            } else {
                assert(lo_in + 1 <= ch[i].start + 1);
            }
        }
    }
    assert(b2[p] == b[p]);
    assert forall|x: int| p + 5 <= x < lo_in implies #[trigger] b2[x] == b[x] by {
        assert(!within_patch(ch, x));
        assert(x < h.start);
    }
    // The new bytes of the matched record parse as one record.
    let new_c = b2.subrange(p, p + 5 + sz - d);
    assert(new_c.len() == 5 + (sz - d));
    assert(new_c.subrange(1, 5) =~= b2.subrange(p + 1, p + 5));
    assert(b2.subrange(p + 1, p + 5) == u32_be_bytes(i32_as_u32((sz - d) as i32)));
    assert(i32_as_u32((sz - d) as i32) == (sz - d) as u32);
    lemma_be_u32_roundtrip((sz - d) as u32);
    assert(be_i32(new_c.subrange(1, 5)) == sz - d);
    assert(new_c.subrange(5, 7) =~= b.subrange(p + 5, p + 7));
    assert(be_i16(new_c.subrange(5, 7)) == nlen);
    lemma_block_parses_as_record(new_c, nlen);
    let new_rec = rec_at(new_c, 0);
    // The deleted-and-patched buffer is, at this level, the original with the
    // matched record's bytes replaced by its new bytes.
    lemma_parse_splice(b, lo, hi, fi, new_c);
    let spl = splice(b, p, p + 5 + sz, new_c);
    assert forall|x: int| lo <= x < p implies #[trigger] b2[x] == b[x] by {
        assert(!within_patch(ch, x));
    }
    lemma_level_equals_splice(b, b2, h, lo, hi, p, sz);
    lemma_parse_translate(b2, lo, hi - d, spl, lo, hi - d);
    let recs2 = recs.subrange(0, fi) + seq![new_rec] + recs.subrange(fi + 1, recs.len() as int);
    assert(parse_list(b2, lo, hi - d) == Ok::<Seq<GRec>, OdsError>(recs2));
    // The replacement keeps every record's name.
    assert(new_rec.name =~= b.subrange(p + 7, p + 7 + nlen)) by {
        assert(new_c.subrange(7, 7 + nlen) =~= b2.subrange(p + 7, p + 7 + nlen));
        assert(b2.subrange(p + 7, p + 7 + nlen) =~= b.subrange(p + 7, p + 7 + nlen));
    }
    assert(rec_at(b, p).name == b.subrange(p + 7, p + 7 + nlen));
    assert(new_rec.name == recs[fi].name);
    assert(recs2.len() == recs.len());
    assert forall|i: int|
        0 <= i < recs2.len() implies (#[trigger] recs2[i]).name == recs[i].name by {
        if i < fi {
            assert(recs2[i] == recs[i]);
        } else if i == fi {
        } else {
            assert(recs2[i] == recs.subrange(fi + 1, recs.len() as int)[i - fi - 1]);
            assert(recs2[i] == recs[i]);
        }
    }
    lemma_rec_off_agree(b, b2, lo, hi, fi);
}


// The terminal level: the hit record's bytes were removed and everything
// after them shifted down; with no other record carrying the segment's name,
// the level scans to absence.
#[verifier::rlimit(100)]
proof fn lemma_absent_terminal_level(
    b: Seq<u8>,
    b2: Seq<u8>,
    segs: Seq<Seq<u8>>,
    k: int,
    lo: int,
    hi: int,
    h: crate::format::GHit,
)
    requires
        0 <= lo <= hi <= b.len(),
        0 <= k == segs.len() - 1,
        hi - (h.size + 5) <= b2.len(),
        parse_list(b, lo, hi) is Ok,
        unique_name(parse_list(b, lo, hi).unwrap(), segs[k]),
        scan_path(b, lo, hi, segs, k) == (GScan {
            chain: Seq::<crate::format::GHit>::empty(),
            outcome: GOutcome::Hit(h),
        }),
        forall|x: int| lo <= x < h.start ==> #[trigger] b2[x] == b[x],
        forall|x: int| h.start + 5 + h.size <= x < hi ==> b2[x - (h.size + 5)] == #[trigger] b[x],
    ensures
        scan_path(b2, lo, hi - (h.size + 5), segs, k).outcome is Absent,
{
    let d = h.size + 5;
    let recs = parse_list(b, lo, hi).unwrap();
    let seg = segs[k];
    lemma_scan_path_props(b, lo, hi, segs, k);
    lemma_scan_first_match(b, lo, hi, segs, k);
    lemma_first_with_name_bounds(recs, seg);
    let fi = first_with_name(recs, seg);
    lemma_parse_splice(b, lo, hi, fi, Seq::empty());
    let spl = splice(b, h.start, h.start + 5 + h.size, Seq::empty());
    assert forall|j: int|
        0 <= j < hi - d - lo implies #[trigger] b2.subrange(lo, hi - d)[j] == spl.subrange(
        lo,
        hi - d,
    )[j] by {
        let x = lo + j;
        assert(b2.subrange(lo, hi - d)[j] == b2[x]);
        assert(spl.subrange(lo, hi - d)[j] == spl[x]);
        if x < h.start {
            assert(spl[x] == b[x]);
        } else {
            assert(spl[x] == b[x + d]);
            assert(b2[x] == b[x + d]);
        }
    }
    assert(b2.subrange(lo, hi - d) =~= spl.subrange(lo, hi - d));
    lemma_parse_translate(b2, lo, hi - d, spl, lo, hi - d);
    let empty_parse = parse_list(Seq::<u8>::empty(), 0, 0).unwrap();
    assert(empty_parse =~= Seq::<GRec>::empty());
    let recs2 = recs.subrange(0, fi) + empty_parse + recs.subrange(fi + 1, recs.len() as int);
    assert(parse_list(b2, lo, hi - d) == Ok::<Seq<GRec>, OdsError>(recs2));
    assert forall|m: int| 0 <= m < recs2.len() implies recs2[m].name != seg by {
        if m < fi {
            assert(recs2[m] == recs[m]);
        } else {
            assert(recs2[m] == recs.subrange(fi + 1, recs.len() as int)[m - fi]);
            assert(recs2[m] == recs[m + 1]);
            assert(recs[fi].name == seg);
        }
    }
    lemma_first_with_name_bounds(recs2, seg);
    assert(first_with_name(recs2, seg) == recs2.len());
    lemma_scan_first_match(b2, lo, hi - d, segs, k);
}


// Passing one level down the chain keeps the byte relations: below the next
// level, only the remaining ancestors' size fields differ.
proof fn lemma_chain_tail_bytes(
    b: Seq<u8>,
    b2: Seq<u8>,
    ch: Seq<crate::format::GHit>,
    h: crate::format::GHit,
    lo: int,
    p: int,
    lo_in: int,
)
    requires
        ch.len() >= 1,
        ch[0].start == p,
        lo <= p,
        p + 5 <= lo_in,
        forall|i: int| 1 <= i < ch.len() ==> lo_in + 1 <= (#[trigger] ch[i]).start + 1,
        forall|x: int| lo <= x < h.start && !within_patch(ch, x) ==> #[trigger] b2[x] == b[x],
        forall|i: int|
            0 <= i < ch.len() ==> b2.subrange((#[trigger] ch[i]).start + 1, ch[i].start + 5)
                == u32_be_bytes(i32_as_u32((ch[i].size - (h.size + 5)) as i32)),
    ensures
        ({
            let ch_in = ch.subrange(1, ch.len() as int);
            &&& (forall|x: int|
                lo_in <= x < h.start && !within_patch(ch_in, x) ==> #[trigger] b2[x] == b[x])
            &&& (forall|i: int|
                0 <= i < ch_in.len() ==> b2.subrange(
                    (#[trigger] ch_in[i]).start + 1,
                    ch_in[i].start + 5,
                ) == u32_be_bytes(i32_as_u32((ch_in[i].size - (h.size + 5)) as i32)))
        }),
{
    let ch_in = ch.subrange(1, ch.len() as int);
    assert forall|x: int|
        lo_in <= x < h.start && !within_patch(ch_in, x) implies #[trigger] b2[x] == b[x] by {
        assert(!within_patch(ch, x)) by {
            assert forall|i: int|
                0 <= i < ch.len() implies !((#[trigger] ch[i]).start + 1 <= x < ch[i].start
                + 5) by {
                if i == 0 {
                    assert(ch[0].start + 5 == p + 5 <= lo_in);
                } else {
                    assert(ch[i] == ch_in[i - 1]);
                }
            }
        }
    }
    assert forall|i: int|
        0 <= i < ch_in.len() implies b2.subrange(
        (#[trigger] ch_in[i]).start + 1,
        ch_in[i].start + 5,
    ) == u32_be_bytes(i32_as_u32((ch_in[i].size - (h.size + 5)) as i32)) by {
        assert(ch_in[i] == ch[i + 1]);
    }
}

// The core induction: a scan that hit a record finds nothing on the buffer
// where that record's bytes were removed and every matched ancestor's size
// field was rewritten, level by level along the matched chain.
#[verifier::rlimit(100)]
proof fn lemma_absent_after_delete(
    b: Seq<u8>,
    b2: Seq<u8>,
    segs: Seq<Seq<u8>>,
    k: int,
    lo: int,
    hi: int,
    ch: Seq<crate::format::GHit>,
    h: crate::format::GHit,
)
    requires
        0 <= lo <= hi <= b.len(),
        0 <= k < segs.len(),
        hi - (h.size + 5) <= b2.len(),
        levels_clean(b, lo, hi, segs, k),
        scan_path(b, lo, hi, segs, k) == (GScan { chain: ch, outcome: GOutcome::Hit(h) }),
        forall|x: int| lo <= x < h.start && !within_patch(ch, x) ==> b2[x] == b[x],
        forall|x: int| h.start + 5 + h.size <= x < hi ==> b2[x - (h.size + 5)] == b[x],
        forall|i: int|
            0 <= i < ch.len() ==> b2.subrange((#[trigger] ch[i]).start + 1, ch[i].start + 5)
                == u32_be_bytes(i32_as_u32((ch[i].size - (h.size + 5)) as i32)),
    ensures
        scan_path(b2, lo, hi - (h.size + 5), segs, k).outcome is Absent,
    decreases segs.len() - k,
{
    let d = h.size + 5;
    let recs = parse_list(b, lo, hi).unwrap();
    let seg = segs[k];
    lemma_scan_path_props(b, lo, hi, segs, k);
    lemma_first_with_name_bounds(recs, seg);
    if k == segs.len() - 1 {
        lemma_scan_terminal_chain(b, lo, hi, segs, k);
        assert(ch =~= Seq::<crate::format::GHit>::empty());
        assert forall|x: int| lo <= x < h.start implies #[trigger] b2[x] == b[x] by {
            assert(!within_patch(ch, x));
        }
        lemma_absent_terminal_level(b, b2, segs, k, lo, hi, h);
    } else {
        lemma_scan_descend(b, lo, hi, segs, k);
        let fi = first_with_name(recs, seg);
        assert(fi < recs.len());
        let p = rec_off(b, lo, fi);
        let sz = be_i32(b.subrange(p + 1, p + 5));
        let nlen = seg.len() as int;
        let lo_in = p + 7 + nlen;
        let hi_in = p + 5 + sz;
        let inner_sc = scan_path(b, lo_in, hi_in, segs, k + 1);
        let this_hit = crate::format::GHit { start: p, size: sz };
        assert(ch == seq![this_hit] + inner_sc.chain);
        assert(ch[0] == this_hit);
        assert(inner_sc.chain =~= ch.subrange(1, ch.len() as int));
        assert(inner_sc.outcome == GOutcome::Hit(h));
        // Header facts for the matched record.
        lemma_parse_splice(b, lo, hi, fi, Seq::empty());
        let nlen_field = be_i16(b.subrange(p + 5, p + 7));
        assert(recs[fi].name == seg);
        assert(rec_at(b, p) == recs[fi]);
        assert(b.subrange(p + 7, p + 7 + nlen_field).len() == nlen_field);
        assert(nlen_field == nlen);
        assert(nlen + 2 <= sz);
        lemma_scan_path_props(b, lo_in, hi_in, segs, k + 1);
        assert(lo_in <= h.start);
        assert(h.start + 5 + h.size <= hi_in);
        assert(sz <= 0x7FFF_FFFF) by {
            assert(be_u32(b.subrange(p + 1, p + 5)) < 0x1_0000_0000);
        }
        assert forall|i: int|
            1 <= i < ch.len() implies lo_in + 1 <= (#[trigger] ch[i]).start + 1 by {
            lemma_chain_sorted(ch, 1, i);
            assert(ch[1] == inner_sc.chain[0]);
        }
        // At this level the buffer still parses, record names and offsets
        // unchanged, with the matched record's size field rewritten.
        lemma_patched_level(b, b2, ch, h, lo, hi, fi);
        let recs2 = parse_list(b2, lo, hi - d).unwrap();
        lemma_first_with_name_names(recs2, recs, seg);
        assert(first_with_name(recs2, seg) == fi);
        // The scan of the new buffer descends at the same offset, into the
        // shrunken value range.
        lemma_scan_descend(b2, lo, hi - d, segs, k);
        assert(rec_off(b2, lo, fi) == p);
        assert(be_i32(b2.subrange(p + 1, p + 5)) == sz - d);
        let inner2 = scan_path(b2, lo_in, p + 5 + (sz - d), segs, k + 1);
        assert(scan_path(b2, lo, hi - d, segs, k).outcome == inner2.outcome);
        // Recurse one level down.
        assert(levels_clean(b, lo_in, hi_in, segs, k + 1));
        let ch_in = ch.subrange(1, ch.len() as int);
        lemma_chain_tail_bytes(b, b2, ch, h, lo, p, lo_in);
        lemma_absent_after_delete(b, b2, segs, k + 1, lo_in, hi_in, ch_in, h);
        assert(inner2.outcome is Absent);
    }
}


/// Law: after a successful delete, resolving the same path finds nothing —
/// at any depth. The buffer must be clean along the path: every level the
/// scan descends through parses as a record list, and no level holds two
/// records named like its segment. (With duplicate sibling names the scan
/// finds the next duplicate instead, by design, so those inputs are
/// excluded.)
// The deleted-and-repaired buffer, byte by byte: unchanged below the removed
// record outside the rewritten size fields, shifted above it, and each
// matched ancestor's size field holding its shrunken size.
#[verifier::rlimit(100)]
proof fn lemma_delete_result_bytes(b: Seq<u8>, key: Seq<char>)
    requires
        b.len() < 0x7FFF_FFFF,
        scan_of(b, key).outcome matches GOutcome::Hit(_),
    ensures
        ({
            let sc = scan_of(b, key);
            let h = sc.outcome->Hit_0;
            let d = h.size + 5;
            let b2 = delete_result(b, sc, h);
            &&& b2.len() == b.len() - d
            &&& (forall|x: int|
                0 <= x < h.start && !within_patch(sc.chain, x) ==> #[trigger] b2[x] == b[x])
            &&& (forall|x: int|
                h.start + 5 + h.size <= x < b.len() ==> #[trigger] b2[x - d] == b[x])
            &&& (forall|i: int|
                0 <= i < sc.chain.len() ==> b2.subrange(
                    (#[trigger] sc.chain[i]).start + 1,
                    sc.chain[i].start + 5,
                ) == u32_be_bytes(i32_as_u32((sc.chain[i].size - d) as i32)))
        }),
{
    let segs = path_segments(key);
    lemma_split_at_dots_len(vstd::utf8::encode_utf8(key));
    lemma_scan_path_props(b, 0, b.len() as int, segs, 0);
    let sc = scan_of(b, key);
    let h = sc.outcome->Hit_0;
    let d = h.size + 5;
    let spliced = splice(b, h.start, h.start + 5 + h.size, Seq::empty());
    let ps = repair_patches(sc.chain, h, 0);
    let b2 = delete_result(b, sc, h);
    assert(b2 == apply_patches(spliced, ps));
    assert(spliced.len() == b.len() - d);
    assert forall|j: int|
        0 <= j < ps.len() implies 0 <= (#[trigger] ps[j]).at && ps[j].at + 4
        <= spliced.len() by {
        assert(ps[j].at == sc.chain[j].start + 1);
        assert(sc.chain[j].start + 7 <= h.start);
        assert(h.start + 5 + h.size <= b.len());
    }
    assert forall|j: int|
        0 <= j < ps.len() - 1 implies (#[trigger] ps[j]).at + 4 <= ps[j + 1].at by {
        assert(ps[j].at == sc.chain[j].start + 1);
        assert(ps[j + 1].at == sc.chain[j + 1].start + 1);
    }
    lemma_apply_patches_below(spliced, ps, 0);
    assert forall|x: int|
        0 <= x < h.start && !within_patch(sc.chain, x) implies #[trigger] b2[x] == b[x] by {
        assert(spliced[x] == b[x]);
        assert forall|j: int|
            0 <= j < ps.len() implies !((#[trigger] ps[j]).at <= x < ps[j].at + 4) by {
            assert(ps[j].at == sc.chain[j].start + 1);
            assert(!(sc.chain[j].start + 1 <= x < sc.chain[j].start + 5));
        }
        lemma_apply_patches_frame(spliced, ps, x);
    }
    assert forall|x: int|
        h.start + 5 + h.size <= x < b.len() implies #[trigger] b2[x - d] == b[x] by {
        assert(spliced[x - d] == b[x]);
        assert forall|j: int|
            0 <= j < ps.len() implies !((#[trigger] ps[j]).at <= x - d < ps[j].at + 4) by {
            assert(ps[j].at + 4 == sc.chain[j].start + 5);
            assert(sc.chain[j].start + 7 <= h.start);
        }
        lemma_apply_patches_frame(spliced, ps, x - d);
    }
    assert forall|i: int|
        0 <= i < sc.chain.len() implies b2.subrange(
        (#[trigger] sc.chain[i]).start + 1,
        sc.chain[i].start + 5,
    ) == u32_be_bytes(i32_as_u32((sc.chain[i].size - d) as i32)) by {
        lemma_apply_patches_reads(spliced, ps, i);
        assert(ps[i].at == sc.chain[i].start + 1);
        assert(ps[i].size == i32_as_u32((sc.chain[i].size - d) as i32));
    }
}

/// Law: after a successful delete, resolving the same path finds nothing —
/// at any depth. The buffer must be clean along the path: every level the
/// scan descends through parses as a record list, and no level holds two
/// records named like its segment. (With duplicate sibling names the scan
/// finds the next duplicate instead, by design, so those inputs are
/// excluded.)
pub proof fn lemma_delete_then_find_nested(b: Seq<u8>, key: Seq<char>)
    requires
        b.len() < 0x7FFF_FFFF,
        scan_of(b, key).outcome matches GOutcome::Hit(_),
        levels_clean(b, 0, b.len() as int, path_segments(key), 0),
    ensures
        ({
            let sc = scan_of(b, key);
            let h = sc.outcome->Hit_0;
            scan_of(delete_result(b, sc, h), key).outcome is Absent
        }),
{
    let segs = path_segments(key);
    lemma_split_at_dots_len(vstd::utf8::encode_utf8(key));
    let sc = scan_of(b, key);
    let h = sc.outcome->Hit_0;
    let b2 = delete_result(b, sc, h);
    lemma_delete_result_bytes(b, key);
    assert(scan_path(b, 0, b.len() as int, segs, 0) == (GScan {
        chain: sc.chain,
        outcome: GOutcome::Hit(h),
    }));
    lemma_absent_after_delete(b, b2, segs, 0, 0, b.len() as int, sc.chain, h);
}

} // verus!

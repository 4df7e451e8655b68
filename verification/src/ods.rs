//! The object data structure: key-path queries and in-place mutation over an
//! in-memory buffer in the record format.
//!
//! Reads resolve a dot-separated path by a linear scan with recursive descent
//! into containers. Mutations scout the same path while recording every
//! ancestor container's size field, splice the target record's bytes, and
//! rewrite each recorded ancestor's size field so the buffer stays
//! self-consistent. The buffer is handed in whole and handed back whole; the
//! caller owns loading and persisting it.

use vstd::prelude::*;

use crate::error::OdsError;
use crate::format::{
    apply_patches, decode_list, decode_rec, i32_as_u32, lemma_scan_path_props,
    lemma_split_at_dots_len, lemma_write_append, rec_at, rec_of_tag, scan_path, splice,
    split_at_dots, wf_gtag, GHit, GOutcome, GPatch, GScan, GTag,
};
use crate::internal_utils::{
    copy_range, delete_sub_object_data, find_sub_object_data, get_list_data, get_sub_object_data,
    patches_of, replace_sub_object_data, scout_object_data,
};
use crate::keyscout::KeyScout;
use crate::streams::{ReadStream, Stream};
use crate::tags::Tag;

verus! {

/// The dot-separated segments of a key, as raw bytes.
pub open spec fn path_segments(key: Seq<char>) -> Seq<Seq<u8>> {
    split_at_dots(vstd::utf8::encode_utf8(key))
}

/// The scan for a key over a whole buffer.
pub open spec fn scan_of(b: Seq<u8>, key: Seq<char>) -> GScan {
    scan_path(b, 0, b.len() as int, path_segments(key), 0)
}

/// The size-field patches that repair the ancestors of a deleted or replaced
/// record: each ancestor's new body size, stored at its recorded offset. The
/// delta is the replacement's length minus the removed record's footprint.
pub open spec fn repair_patches(chain: Seq<GHit>, h: GHit, repl_len: int) -> Seq<GPatch> {
    chain.map_values(
        |c: GHit| GPatch { at: c.start + 1, size: i32_as_u32((c.size - (h.size + 5) + repl_len) as i32) },
    )
}

/// The buffer after deleting the record a scan hit: its bytes spliced out,
/// every matched ancestor's size field rewritten.
pub open spec fn delete_result(b: Seq<u8>, sc: GScan, h: GHit) -> Seq<u8> {
    apply_patches(splice(b, h.start, h.start + 5 + h.size, Seq::empty()), repair_patches(sc.chain, h, 0))
}

/// The buffer after replacing the record a scan hit with the bytes `repl`:
/// the old bytes spliced out and `repl` spliced in at the same position,
/// every matched ancestor's size field rewritten.
pub open spec fn replace_result(b: Seq<u8>, sc: GScan, h: GHit, repl: Seq<u8>) -> Seq<u8> {
    apply_patches(
        splice(b, h.start, h.start + 5 + h.size, repl),
        repair_patches(sc.chain, h, repl.len() as int),
    )
}

/// A loaded buffer of records, addressed by dot-separated key paths.
pub struct ObjectDataStructure {
    data: Vec<u8>,
}

impl View for ObjectDataStructure {
    type V = Seq<u8>;

    closed spec fn view(&self) -> Seq<u8> {
        self.data@
    }
}

// Derives the preconditions of the splice-and-repair functions from the facts
// the scan lemma gives about a hit.
proof fn lemma_repair_preconditions(b: Seq<u8>, key: Seq<char>)
    requires
        b.len() < 0x7FFF_FFFF,
        scan_of(b, key).outcome matches GOutcome::Hit(_),
    ensures
        ({
            let sc = scan_of(b, key);
            let h = sc.outcome->Hit_0;
            &&& 0 <= h.start
            &&& 2 <= h.size
            &&& h.size + 5 <= 0x7FFF_FFFF
            &&& h.start + 5 + h.size <= b.len()
            &&& forall|i: int|
                0 <= i < sc.chain.len() ==> {
                    let c = #[trigger] sc.chain[i];
                    &&& 0 <= c.start
                    &&& c.start + 5 <= h.start
                    &&& c.size <= b.len() - 5
                    &&& h.size + 7 <= c.size
                }
        }),
{
    lemma_split_at_dots_len(vstd::utf8::encode_utf8(key));
    lemma_scan_path_props(b, 0, b.len() as int, path_segments(key), 0);
    let sc = scan_of(b, key);
    let h = sc.outcome->Hit_0;
    assert forall|i: int| 0 <= i < sc.chain.len() implies {
        let c = #[trigger] sc.chain[i];
        &&& 0 <= c.start
        &&& c.start + 5 <= h.start
        &&& c.size <= b.len() - 5
        &&& h.size + 7 <= c.size
    } by {
        let c = sc.chain[i];
        assert(c.start + 7 <= h.start);
        assert(h.start + 5 + h.size <= c.start + 5 + c.size);
        assert(c.start + 5 + c.size <= b.len());
    }
}

impl ObjectDataStructure {
    /// An object data structure over the given buffer of records.
    pub fn new(data: Vec<u8>) -> (r: ObjectDataStructure)
        ensures
            r@ == data@,
    {
        ObjectDataStructure { data }
    }

    /// A copy of the whole buffer, for the caller to persist.
    pub fn bytes(&self) -> (r: Vec<u8>)
        ensures
            r@ == self@,
    {
        let n = self.data.len();
        copy_range(&self.data, 0, n)
    }

    /// Resolve a dot-separated key and decode the record it names. Absence is
    /// `Ok(None)`; bytes that cannot be interpreted are an error.
    pub fn get(&self, key: String) -> (r: Result<Option<Tag>, OdsError>)
        ensures
            ({
                let sc = scan_of(self@, key@);
                match r {
                    Ok(Some(t)) => sc.outcome matches GOutcome::Hit(h) && decode_rec(
                        rec_at(self@, h.start),
                    ) == Ok::<GTag, OdsError>(t@),
                    Ok(None) => sc.outcome is Absent,
                    Err(e) => sc.outcome == GOutcome::Fail(e) || (
                    sc.outcome matches GOutcome::Hit(h) && decode_rec(rec_at(self@, h.start))
                        == Err::<GTag, OdsError>(e)),
                }
            }),
    {
        let n = self.data.len();
        let d = copy_range(&self.data, 0, n);
        proof {
            assert(d@ =~= self.data@);
        }
        let read_stream = ReadStream::new_with_data(d);
        get_sub_object_data(read_stream, key)
    }

    /// Decode every top-level record, in scan order.
    pub fn get_all(&self) -> (r: Result<Vec<Tag>, OdsError>)
        requires
            self@.len() <= 0x7FFF_FFFF,
        ensures
            ({
                let dl = decode_list(self@, 0, self@.len() as int);
                match r {
                    Ok(tags) => dl == Ok::<Seq<GTag>, OdsError>(tags@.map_values(|t: Tag| t@)),
                    Err(e) => dl == Err::<Seq<GTag>, OdsError>(e),
                }
            }),
    {
        let n = self.data.len();
        let d = copy_range(&self.data, 0, n);
        proof {
            assert(d@ =~= self.data@);
        }
        let read_stream = ReadStream::new_with_data(d);
        get_list_data(read_stream, n as i32)
    }

    /// Whether a dot-separated key resolves to a record.
    pub fn find(&self, key: String) -> (r: Result<bool, OdsError>)
        ensures
            ({
                let sc = scan_of(self@, key@);
                match r {
                    Ok(found) => (found <==> sc.outcome matches GOutcome::Hit(_)) && (!found
                        <==> sc.outcome is Absent),
                    Err(e) => sc.outcome == GOutcome::Fail(e),
                }
            }),
    {
        let n = self.data.len();
        let d = copy_range(&self.data, 0, n);
        proof {
            assert(d@ =~= self.data@);
        }
        let read_stream = ReadStream::new_with_data(d);
        find_sub_object_data(read_stream, key)
    }

    /// Append one tag, encoded as a full record, at the end of the buffer.
    pub fn append(&mut self, tag: Tag)
        requires
            wf_gtag(tag@),
            old(self)@.len() + 5 + rec_of_tag(tag@).body_size() <= usize::MAX,
        ensures
            final(self)@ == old(self)@ + rec_of_tag(tag@).enc(),
    {
        let mut stream = Stream::new_empty();
        tag.write_data(&mut stream);
        proof {
            lemma_write_append(Seq::<u8>::empty(), rec_of_tag(tag@).enc());
            assert(Seq::<u8>::empty() + rec_of_tag(tag@).enc() =~= rec_of_tag(tag@).enc());
        }
        let mut encoded = stream.bytes();
        self.data.append(&mut encoded);
    }

    /// Delete the record a dot-separated key resolves to: splice its bytes
    /// out and rewrite every ancestor container's size field. `Ok(false)`
    /// when the key does not resolve; the buffer is then unchanged.
    pub fn delete(&mut self, key: String) -> (r: Result<bool, OdsError>)
        requires
            old(self)@.len() < 0x7FFF_FFFF,
        ensures
            ({
                let sc = scan_of(old(self)@, key@);
                match r {
                    Ok(true) => sc.outcome matches GOutcome::Hit(h) && final(self)@
                        == delete_result(old(self)@, sc, h),
                    Ok(false) => sc.outcome is Absent && final(self)@ == old(self)@,
                    Err(e) => sc.outcome == GOutcome::Fail(e) && final(self)@ == old(self)@,
                }
            }),
    {
        let n = self.data.len();
        let d = copy_range(&self.data, 0, n);
        proof {
            assert(d@ =~= self.data@);
        }
        let read_stream = ReadStream::new_with_data(d);
        let mut my_counter = KeyScout::new();
        match scout_object_data(&read_stream, key, &mut my_counter) {
            Ok(()) => {},
            Err(e) => {
                return Err(e);
            },
        }
        if my_counter.get_end().is_none() {
            return Ok(false);
        }
        let ghost sc = scan_of(old(self)@, key@);
        let ghost h = sc.outcome->Hit_0;
        proof {
            lemma_repair_preconditions(old(self)@, key@);
            assert(sc.outcome matches GOutcome::Hit(_));
            assert(my_counter.end matches Some(c) && c.size as int == h.size
                && c.starting_index as int == h.start + 1);
            assert(my_counter.children@.len() == sc.chain.len());
            assert forall|i: int|
                0 <= i < my_counter.children@.len() implies {
                    let c = #[trigger] my_counter.children@[i];
                    &&& c.size as int == sc.chain[i].size
                    &&& c.starting_index as int == sc.chain[i].start + 1
                } by {
                    assert(my_counter.children@[0 + i] == my_counter.children@[i]);
                }
        }
        delete_sub_object_data(&mut self.data, &mut my_counter);
        proof {
            assert(patches_of(my_counter.children@) =~= repair_patches(sc.chain, h, 0));
        }
        Ok(true)
    }

    /// Replace the record a dot-separated key resolves to with the given tag,
    /// encoded as a full record, and rewrite every ancestor container's size
    /// field. `Ok(false)` when the key does not resolve; the buffer is then
    /// unchanged.
    pub fn replace_data(&mut self, key: String, replacement: Tag) -> (r: Result<bool, OdsError>)
        requires
            wf_gtag(replacement@),
            old(self)@.len() + 5 + rec_of_tag(replacement@).body_size() <= 0x7FFF_FFFF,
        ensures
            ({
                let sc = scan_of(old(self)@, key@);
                let repl = rec_of_tag(replacement@).enc();
                match r {
                    Ok(true) => sc.outcome matches GOutcome::Hit(h) && final(self)@
                        == replace_result(old(self)@, sc, h, repl),
                    Ok(false) => sc.outcome is Absent && final(self)@ == old(self)@,
                    Err(e) => sc.outcome == GOutcome::Fail(e) && final(self)@ == old(self)@,
                }
            }),
    {
        let n = self.data.len();
        let d = copy_range(&self.data, 0, n);
        proof {
            assert(d@ =~= self.data@);
        }
        let read_stream = ReadStream::new_with_data(d);
        let mut my_counter = KeyScout::new();
        match scout_object_data(&read_stream, key, &mut my_counter) {
            Ok(()) => {},
            Err(e) => {
                return Err(e);
            },
        }
        if my_counter.get_end().is_none() {
            return Ok(false);
        }
        let mut write_tag = Stream::new_empty();
        replacement.write_data(&mut write_tag);
        proof {
            lemma_write_append(Seq::<u8>::empty(), rec_of_tag(replacement@).enc());
            assert(Seq::<u8>::empty() + rec_of_tag(replacement@).enc() =~= rec_of_tag(
                replacement@,
            ).enc());
        }
        let replacement_data = write_tag.bytes();
        let ghost sc = scan_of(old(self)@, key@);
        let ghost h = sc.outcome->Hit_0;
        proof {
            lemma_repair_preconditions(old(self)@, key@);
            assert(sc.outcome matches GOutcome::Hit(_));
            assert(my_counter.end matches Some(c) && c.size as int == h.size
                && c.starting_index as int == h.start + 1);
            assert(my_counter.children@.len() == sc.chain.len());
            assert forall|i: int|
                0 <= i < my_counter.children@.len() implies {
                    let c = #[trigger] my_counter.children@[i];
                    &&& c.size as int == sc.chain[i].size
                    &&& c.starting_index as int == sc.chain[i].start + 1
                } by {
                    assert(my_counter.children@[0 + i] == my_counter.children@[i]);
                }
        }
        replace_sub_object_data(&mut self.data, &mut my_counter, &replacement_data);
        proof {
            assert(patches_of(my_counter.children@) =~= repair_patches(
                sc.chain,
                h,
                rec_of_tag(replacement@).enc().len() as int,
            ));
        }
        Ok(true)
    }

    /// Store a value under a key. `None` deletes the key. An empty key clears
    /// the buffer and stores the value as its sole record. A key that does
    /// not resolve appends the value when the buffer has no matching ancestor
    /// at all, and otherwise leaves the buffer unchanged, as does a key that
    /// already resolves.
    pub fn set(&mut self, key: String, value: Option<Tag>) -> (r: Result<(), OdsError>)
        requires
            old(self)@.len() < 0x7FFF_FFFF,
            value matches Some(t) ==> wf_gtag(t@) && old(self)@.len() + 5 + rec_of_tag(
                t@,
            ).body_size() <= usize::MAX,
        ensures
            ({
                let sc = scan_of(old(self)@, key@);
                match value {
                    Option::None => match r {
                        Ok(()) => (sc.outcome matches GOutcome::Hit(h) && final(self)@
                            == delete_result(old(self)@, sc, h)) || (sc.outcome is Absent && final(self)@ == old(self)@),
                        Err(e) => sc.outcome == GOutcome::Fail(e) && final(self)@ == old(self)@,
                    },
                    Option::Some(t) => if key@.len() == 0 {
                        r == Ok::<(), OdsError>(()) && final(self)@ == rec_of_tag(t@).enc()
                    } else {
                        match r {
                            Ok(()) => (sc.outcome matches GOutcome::Hit(_) && final(self)@ == old(self)@) || (sc.outcome is Absent && (if sc.chain.len() == 0 {
                                final(self)@ == old(self)@ + rec_of_tag(t@).enc()
                            } else {
                                final(self)@ == old(self)@
                            })),
                            Err(e) => sc.outcome == GOutcome::Fail(e) && final(self)@ == old(self)@,
                        }
                    },
                }
            }),
    {
        let value = match value {
            None => {
                return match self.delete(key) {
                    Ok(_) => Ok(()),
                    Err(e) => Err(e),
                };
            },
            Some(t) => t,
        };
        if key.as_str().is_empty() {
            self.data = Vec::new();
            self.append(value);
            return Ok(());
        }
        let n = self.data.len();
        let d = copy_range(&self.data, 0, n);
        proof {
            assert(d@ =~= self.data@);
        }
        let read_stream = ReadStream::new_with_data(d);
        let mut counter = KeyScout::new();
        match scout_object_data(&read_stream, key, &mut counter) {
            Ok(()) => {},
            Err(e) => {
                return Err(e);
            },
        }
        if counter.get_end().is_none() {
            if counter.get_children().len() < 1 {
                self.append(value);
                return Ok(());
            }
        }
        Ok(())
    }
}

} // verus!

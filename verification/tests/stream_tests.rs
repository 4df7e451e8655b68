use ods::error::OdsError;
use ods::keyscout::{KeyScout, KeyScoutChild};
use ods::streams::{ReadStream, Stream, WriteStream};
use ods::tag_builder::TagBuilder;

#[test]
fn stream_integer_roundtrips() {
    let mut s = Stream::new_empty();
    s.write_i16(-2);
    s.write_i32(0x0102_0304);
    s.write_i64(-1);
    s.write(0xAB);
    s.set_position(0);
    assert_eq!(s.read_i16(), Ok(-2));
    assert_eq!(s.read_i32(), Ok(0x0102_0304));
    assert_eq!(s.read_i64(), Ok(-1));
    assert_eq!(s.read(), Ok(0xAB));
    assert_eq!(s.read(), Err(OdsError::UnexpectedEof));
}

#[test]
fn stream_is_big_endian() {
    let mut s = Stream::new_empty();
    s.write_i32(1);
    assert_eq!(s.bytes(), vec![0, 0, 0, 1]);
    let mut s2 = Stream::new_empty();
    s2.write_i16(-1);
    assert_eq!(s2.bytes(), vec![0xFF, 0xFF]);
}

#[test]
fn stream_string_and_char() {
    let mut s = Stream::new_empty();
    s.write_string("héllo".to_string());
    s.write_char('A');
    let n = s.size() - 1;
    s.set_position(0);
    assert_eq!(s.read_string(n), Ok("héllo".to_string()));
    assert_eq!(s.read_char(), Ok('A'));
}

#[test]
fn stream_invalid_utf8_read_is_a_decode_error() {
    let mut s = Stream::new_with_data(vec![0xFF, 0xFE]);
    s.set_position(0);
    assert_eq!(s.read_string(2), Err(OdsError::DecodeError));
    // The failed read does not move the cursor.
    assert_eq!(s.position(), 0);
}

#[test]
fn stream_float_bit_patterns() {
    let mut s = Stream::new_empty();
    s.write_f32_bits(2.25f32.to_bits());
    s.write_f64_bits(2.25f64.to_bits());
    s.set_position(0);
    assert_eq!(s.read_f32_bits().map(f32::from_bits), Ok(2.25f32));
    assert_eq!(s.read_f64_bits().map(f64::from_bits), Ok(2.25f64));
}

#[test]
fn stream_positioning() {
    let mut s = Stream::new_with_data(vec![10, 20, 30]);
    assert_eq!(s.size(), 3);
    assert_eq!(s.position(), 3);
    assert!(!s.can_read_more());
    s.set_position(1);
    assert!(s.can_read_more());
    assert_eq!(s.read(), Ok(20));
    s.skip(1);
    assert!(!s.can_read_more());
    s.set_position(0);
    s.goto_end();
    assert_eq!(s.position(), 3);
    // Writing in the middle overwrites.
    s.set_position(1);
    s.write(99);
    assert_eq!(s.bytes(), vec![10, 99, 30]);
}

#[test]
fn stream_read_vec_reads_exactly() {
    let mut s = Stream::new_with_data(vec![1, 2, 3, 4]);
    s.set_position(1);
    assert_eq!(s.read_vec(2), Ok(vec![2, 3]));
    assert_eq!(s.read_vec(2), Err(OdsError::UnexpectedEof));
}

#[test]
fn read_stream_respects_its_limit() {
    let rs0 = ReadStream::new_with_data(vec![1, 2, 3, 4, 5, 6]);
    // A sub-view over bytes [1, 4) of the same buffer.
    let mut rs = rs0.sub_view(1, 4);
    assert_eq!(rs.size(), 4);
    assert_eq!(rs.position(), 1);
    assert!(rs.can_read_more());
    assert_eq!(rs.read(), Ok(2));
    assert_eq!(rs.read_vec(2), Ok(vec![3, 4]));
    assert_eq!(rs.read(), Err(OdsError::UnexpectedEof));
    // The full backing buffer is still there.
    assert_eq!(rs.bytes(), vec![1, 2, 3, 4, 5, 6]);
}

#[test]
fn write_stream_collects_bytes() {
    let mut ws = WriteStream::new();
    ws.write(1);
    ws.write_vec(vec![2, 3]);
    ws.write_i16(4);
    assert_eq!(ws.size(), 5);
    assert_eq!(ws.bytes(), vec![1, 2, 3, 0, 4]);
    let mut ws2 = WriteStream::new_with_data(vec![9]);
    ws2.write_string("a".to_string());
    assert_eq!(ws2.bytes(), vec![9, b'a']);
}

#[test]
fn key_scout_children_bookkeeping() {
    let mut child = KeyScoutChild::new();
    assert_eq!(child.get_name(), "null");
    assert_eq!(child.get_size(), 0);
    assert_eq!(child.get_starting_index(), -1);
    child.set_name("Obj".to_string());
    child.set_size(40);
    child.set_starting_index(1);
    child.remove_size(14);
    child.add_size(2);
    assert_eq!(child.get_size(), 28);
    assert_eq!(child.get_starting_index(), 1);

    let mut scout = KeyScout::new();
    assert!(scout.get_end().is_none());
    scout.add_child(child);
    let mut other = KeyScoutChild::new();
    other.set_name("Inner".to_string());
    other.set_size(10);
    scout.add_child(other);
    scout.remove_amount(3);
    assert_eq!(scout.get_children()[0].get_size(), 25);
    assert_eq!(scout.get_children()[1].get_size(), 7);
    scout.add_amount(1);
    assert_eq!(scout.get_children()[0].get_size(), 26);
    assert!(scout.get_child_by_name("Inner".to_string()).is_some());
    assert!(scout.get_child_by_name("Nope".to_string()).is_none());
    let mut end = KeyScoutChild::new();
    end.set_name("Leaf".to_string());
    scout.set_end(end);
    assert!(scout.get_end().is_some());
}

#[test]
fn tag_builder_decodes_a_value() {
    let mut builder = TagBuilder::new();
    assert_eq!(builder.get_data_type(), -1);
    assert_eq!(builder.get_data_size(), -1);
    assert_eq!(builder.get_starting_index(), -1);
    assert_eq!(builder.get_name_size(), -1);
    assert_eq!(builder.get_value_length(), -1);
    builder.set_data_type(2);
    builder.set_data_size(7);
    builder.set_starting_index(5);
    builder.set_name("N".to_string());
    builder.set_name_size(1);
    builder.set_value_length(4);
    assert_eq!(builder.get_data_type(), 2);
    assert_eq!(builder.get_name(), "N");
    let rs = ReadStream::new_with_data(vec![0, 0, 0, 42]);
    builder.set_value_bytes(rs);
    let tag = builder.process().unwrap();
    assert_eq!(tag.get_name(), "N");
    assert!(tag.is_tag(2));
    assert!(!tag.is_tag(1));
}

#[test]
fn tag_builder_rejects_an_unset_type() {
    let mut builder = TagBuilder::new();
    builder.set_value_length(0);
    builder.set_value_bytes(ReadStream::new_with_data(Vec::new()));
    assert_eq!(builder.process().map(|_| ()), Err(OdsError::DecodeError));
}

use ods::error::OdsError;
use ods::ods::ObjectDataStructure;
use ods::tags::{Tag, TagValue};

#[test]
fn truncated_header_is_eof() {
    let ods = ObjectDataStructure::new(vec![1, 0, 0]);
    assert_eq!(
        ods.find("x".to_string()),
        Err(OdsError::UnexpectedEof)
    );
    assert!(matches!(ods.get_all(), Err(OdsError::UnexpectedEof)));
}

#[test]
fn undersized_body_is_a_decode_error() {
    // A body size of 1 cannot even cover the 2-byte name-length field.
    let ods = ObjectDataStructure::new(vec![1, 0, 0, 0, 1, 0, 0]);
    assert_eq!(ods.find("x".to_string()), Err(OdsError::DecodeError));
}

#[test]
fn value_overrunning_the_buffer_is_eof() {
    // Body size 20, but only the header is present.
    let ods = ObjectDataStructure::new(vec![1, 0, 0, 0, 20, 0, 1, b'x']);
    assert_eq!(ods.find("x".to_string()), Err(OdsError::UnexpectedEof));
}

#[test]
fn unknown_type_byte_is_a_decode_error() {
    // Type 99, empty name, empty value. An empty key names the empty segment,
    // which matches the record's empty name; decoding then fails on the type.
    let ods = ObjectDataStructure::new(vec![99, 0, 0, 0, 2, 0, 0]);
    assert!(matches!(ods.get("".to_string()), Err(OdsError::DecodeError)));
    // find never decodes the value, so it still succeeds.
    assert_eq!(ods.find("".to_string()), Ok(true));
}

#[test]
fn invalid_utf8_value_is_a_decode_error() {
    // A string record whose single value byte is not valid UTF-8.
    let ods = ObjectDataStructure::new(vec![1, 0, 0, 0, 4, 0, 1, b'S', 0xFF]);
    assert!(matches!(ods.get("S".to_string()), Err(OdsError::DecodeError)));
    assert_eq!(ods.find("S".to_string()), Ok(true));
}

#[test]
fn short_fixed_width_value_is_eof() {
    // An int record with only two value bytes.
    let ods = ObjectDataStructure::new(vec![2, 0, 0, 0, 5, 0, 1, b'I', 1, 2]);
    assert!(matches!(ods.get("I".to_string()), Err(OdsError::UnexpectedEof)));
}

#[test]
fn matching_is_on_name_bytes() {
    // A record whose name byte is not valid UTF-8 can never match a key, and
    // scanning past it is not an error.
    let mut data = vec![1, 0, 0, 0, 4, 0, 1, 0xFF, b'v'];
    data.extend(vec![8, 0, 0, 0, 4, 0, 1, b'k', 9]);
    let ods = ObjectDataStructure::new(data);
    assert_eq!(ods.find("k".to_string()), Ok(true));
    assert_eq!(ods.find("q".to_string()), Ok(false));
}

#[test]
fn non_container_operations_are_unsupported() {
    let mut t = Tag::new("s".to_string(), TagValue::Str("v".to_string()));
    assert!(matches!(t.get(0), Err(OdsError::UnsupportedOperation)));
    assert_eq!(t.is_type(0, 1), Err(OdsError::UnsupportedOperation));
    assert_eq!(
        t.add(Tag::new("x".to_string(), TagValue::Byte(1))),
        Err(OdsError::UnsupportedOperation)
    );
}

#[test]
fn error_descriptions_name_the_kind() {
    assert_eq!(OdsError::UnexpectedEof.describe(), "unexpected end of data");
    assert_eq!(OdsError::DecodeError.describe(), "the bytes could not be decoded");
    assert_eq!(OdsError::UnsupportedOperation.describe(), "unsupported operation");
}

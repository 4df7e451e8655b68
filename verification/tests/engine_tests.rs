use ods::internal_utils::{
    find_sub_object_data, get_list_data, get_sub_object_data, scout_object_data, split_key,
};
use ods::keyscout::KeyScout;
use ods::ods::ObjectDataStructure;
use ods::streams::ReadStream;
use ods::tags::{Container, Tag, TagValue};

fn str_tag(name: &str, value: &str) -> Tag {
    Tag::new(name.to_string(), TagValue::Str(value.to_string()))
}

fn nested_buffer() -> Vec<u8> {
    // One top-level container "Obj" holding "Name" and "Age".
    let mut inner = ObjectDataStructure::new(Vec::new());
    inner.append(str_tag("Name", "Bob"));
    inner.append(str_tag("Age", "42"));
    let mut outer = ObjectDataStructure::new(Vec::new());
    outer.append(Tag::new(
        "Obj".to_string(),
        TagValue::Cont(Container::new_with_data(inner.bytes())),
    ));
    outer.bytes()
}

#[test]
fn split_key_on_dots() {
    let segs = split_key("Parent.Child.Leaf");
    assert_eq!(segs, vec![b"Parent".to_vec(), b"Child".to_vec(), b"Leaf".to_vec()]);
    assert_eq!(split_key(""), vec![Vec::<u8>::new()]);
    assert_eq!(split_key("A."), vec![b"A".to_vec(), Vec::new()]);
    assert_eq!(split_key(".A"), vec![Vec::new(), b"A".to_vec()]);
}

#[test]
fn engine_find_and_get() {
    let data = nested_buffer();
    let rs = ReadStream::new_with_data(data.clone());
    assert_eq!(find_sub_object_data(rs, "Obj.Name".to_string()), Ok(true));
    let rs = ReadStream::new_with_data(data.clone());
    assert_eq!(find_sub_object_data(rs, "Obj.Nope".to_string()), Ok(false));
    let rs = ReadStream::new_with_data(data.clone());
    let tag = get_sub_object_data(rs, "Obj.Age".to_string())
        .unwrap()
        .unwrap();
    assert_eq!(tag.get_name(), "Age");
    assert!(matches!(tag.get_value(), TagValue::Str(s) if s == "42"));
}

#[test]
fn scout_records_ancestor_size_fields() {
    let data = nested_buffer();
    let rs = ReadStream::new_with_data(data.clone());
    let mut counter = KeyScout::new();
    scout_object_data(&rs, "Obj.Name".to_string(), &mut counter).unwrap();
    let children = counter.get_children();
    assert_eq!(children.len(), 1);
    // The ancestor's size field starts right after its type byte.
    assert_eq!(children[0].get_starting_index(), 1);
    let obj_size = u32::from_be_bytes([data[1], data[2], data[3], data[4]]);
    assert_eq!(children[0].get_size(), obj_size as i32);
    assert_eq!(children[0].get_name(), "Obj");
    let end = counter.get_end().as_ref().unwrap();
    assert_eq!(end.get_name(), "Name");
    // "Name" record body: name length field + "Name" + "Bob".
    assert_eq!(end.get_size(), (2 + 4 + 3) as i32);
    // Its size field sits one byte into the record, inside the container's
    // value bytes, which start after the 7 header bytes and "Obj".
    assert_eq!(end.get_starting_index(), (7 + 3 + 1) as i32);
}

#[test]
fn scout_without_a_match_records_no_end() {
    let data = nested_buffer();
    let rs = ReadStream::new_with_data(data);
    let mut counter = KeyScout::new();
    scout_object_data(&rs, "Obj.Nope".to_string(), &mut counter).unwrap();
    assert_eq!(counter.get_children().len(), 1);
    assert!(counter.get_end().is_none());
}

#[test]
fn list_decoding_walks_every_record() {
    let mut ods = ObjectDataStructure::new(Vec::new());
    ods.append(str_tag("A", "1"));
    ods.append(Tag::new("B".to_string(), TagValue::Byte(2)));
    ods.append(Tag::new("C".to_string(), TagValue::Int(3)));
    let data = ods.bytes();
    let rs = ReadStream::new_with_data(data.clone());
    let n = data.len() as i32;
    let tags = get_list_data(rs, n).unwrap();
    assert_eq!(tags.len(), 3);
    assert_eq!(tags[0].get_name(), "A");
    assert_eq!(tags[1].get_name(), "B");
    assert_eq!(tags[2].get_name(), "C");
    assert!(matches!(tags[2].get_value(), TagValue::Int(3)));
}

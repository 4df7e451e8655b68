use ods::ods::ObjectDataStructure;
use ods::tags::{Container, Tag, TagValue};

fn str_tag(name: &str, value: &str) -> Tag {
    Tag::new(name.to_string(), TagValue::Str(value.to_string()))
}

fn value_string(tag: &Tag) -> String {
    match tag.get_value() {
        TagValue::Str(s) => s.clone(),
        _ => panic!("expected a string value"),
    }
}

fn object_with(fields: Vec<Tag>) -> Vec<u8> {
    let mut inner = ObjectDataStructure::new(Vec::new());
    for f in fields {
        inner.append(f);
    }
    inner.bytes()
}

#[test]
fn resolve_sole_record() {
    let mut ods = ObjectDataStructure::new(Vec::new());
    ods.append(str_tag("Test", "Hello"));
    let got = ods.get("Test".to_string()).unwrap().unwrap();
    assert_eq!(got.get_name(), "Test");
    assert_eq!(value_string(&got), "Hello");
    assert_eq!(got.get_id(), 1);
}

#[test]
fn resolve_nested_field() {
    let data = object_with(vec![str_tag("Name", "Bob")]);
    let mut ods = ObjectDataStructure::new(Vec::new());
    ods.append(Tag::new(
        "Obj".to_string(),
        TagValue::Cont(Container::new_with_data(data)),
    ));
    let got = ods.get("Obj.Name".to_string()).unwrap().unwrap();
    assert_eq!(value_string(&got), "Bob");
    assert!(ods.get("Obj.Missing".to_string()).unwrap().is_none());
}

#[test]
fn delete_nested_field_shrinks_parent() {
    let name_rec_footprint = {
        // A full record is 5 bytes of header plus its body: the 2-byte name
        // length, the name, and the value.
        5 + 2 + "Name".len() + "Bob".len()
    };
    let data = object_with(vec![str_tag("Name", "Bob"), str_tag("Age", "42")]);
    let mut ods = ObjectDataStructure::new(Vec::new());
    ods.append(Tag::new(
        "Obj".to_string(),
        TagValue::Cont(Container::new_with_data(data)),
    ));
    let before = ods.bytes();
    let old_size = u32::from_be_bytes([before[1], before[2], before[3], before[4]]);
    assert!(ods.delete("Obj.Name".to_string()).unwrap());
    let after = ods.bytes();
    let new_size = u32::from_be_bytes([after[1], after[2], after[3], after[4]]);
    assert_eq!(new_size, old_size - name_rec_footprint as u32);
    // The sibling is still reachable.
    let got = ods.get("Obj.Age".to_string()).unwrap().unwrap();
    assert_eq!(value_string(&got), "42");
    // The deleted field is gone.
    assert!(!ods.find("Obj.Name".to_string()).unwrap());
}

#[test]
fn resolution_returns_first_of_equal_names() {
    let mut ods = ObjectDataStructure::new(Vec::new());
    ods.append(str_tag("Twin", "first"));
    ods.append(str_tag("Twin", "second"));
    let got = ods.get("Twin".to_string()).unwrap().unwrap();
    assert_eq!(value_string(&got), "first");
}

#[test]
fn delete_then_find_is_false() {
    let mut ods = ObjectDataStructure::new(Vec::new());
    ods.append(str_tag("A", "1"));
    ods.append(str_tag("B", "2"));
    assert!(ods.find("A".to_string()).unwrap());
    assert!(ods.delete("A".to_string()).unwrap());
    assert!(!ods.find("A".to_string()).unwrap());
    assert!(ods.find("B".to_string()).unwrap());
    // Deleting again finds nothing.
    assert!(!ods.delete("A".to_string()).unwrap());
}

#[test]
fn find_is_idempotent() {
    let mut ods = ObjectDataStructure::new(Vec::new());
    ods.append(str_tag("Key", "val"));
    let before = ods.bytes();
    let first = ods.find("Key".to_string()).unwrap();
    let second = ods.find("Key".to_string()).unwrap();
    assert_eq!(first, second);
    assert!(first);
    assert_eq!(ods.bytes(), before);
    let miss1 = ods.find("Other".to_string()).unwrap();
    let miss2 = ods.find("Other".to_string()).unwrap();
    assert_eq!(miss1, miss2);
    assert!(!miss1);
    assert_eq!(ods.bytes(), before);
}

#[test]
fn replace_keeps_ancestors_consistent() {
    let data = object_with(vec![str_tag("Name", "Bob"), str_tag("Age", "42")]);
    let mut ods = ObjectDataStructure::new(Vec::new());
    ods.append(Tag::new(
        "Obj".to_string(),
        TagValue::Cont(Container::new_with_data(data)),
    ));
    ods.append(str_tag("Tail", "end"));
    assert!(ods
        .replace_data("Obj.Name".to_string(), str_tag("Name", "Robert"))
        .unwrap());
    // The whole file still decodes, and each container's size field matches
    // the length of its contents.
    let all = ods.get_all().unwrap();
    assert_eq!(all.len(), 2);
    let buf = ods.bytes();
    let obj_size = u32::from_be_bytes([buf[1], buf[2], buf[3], buf[4]]) as usize;
    let obj_children = match all[0].get_value() {
        TagValue::Cont(c) => c.get_data().bytes(),
        _ => panic!("expected a container"),
    };
    // Body size covers the name-length field, the name, and the value bytes.
    assert_eq!(obj_size, 2 + "Obj".len() + obj_children.len());
    let got = ods.get("Obj.Name".to_string()).unwrap().unwrap();
    assert_eq!(value_string(&got), "Robert");
    let tail = ods.get("Tail".to_string()).unwrap().unwrap();
    assert_eq!(value_string(&tail), "end");
}

#[test]
fn empty_buffer_is_a_valid_zero_record_container() {
    let mut ods = ObjectDataStructure::new(Vec::new());
    assert!(ods.get("Anything".to_string()).unwrap().is_none());
    assert!(!ods.find("Anything".to_string()).unwrap());
    assert!(ods.get_all().unwrap().is_empty());
    assert!(!ods.delete("Anything".to_string()).unwrap());
    assert!(!ods
        .replace_data("Anything".to_string(), str_tag("Anything", "x"))
        .unwrap());
}

#[test]
fn set_stores_appends_and_deletes() {
    let mut ods = ObjectDataStructure::new(Vec::new());
    // An empty key clears the buffer and stores the sole record.
    ods.set("".to_string(), Some(str_tag("Solo", "one"))).unwrap();
    assert_eq!(value_string(&ods.get("Solo".to_string()).unwrap().unwrap()), "one");
    // A missing top-level key appends.
    ods.set("Extra".to_string(), Some(str_tag("Extra", "two"))).unwrap();
    assert!(ods.find("Extra".to_string()).unwrap());
    // Storing nothing deletes.
    ods.set("Solo".to_string(), None).unwrap();
    assert!(!ods.find("Solo".to_string()).unwrap());
    assert!(ods.find("Extra".to_string()).unwrap());
}

#[test]
fn delete_at_depth_three_repairs_every_ancestor() {
    let leaf_footprint = 5 + 2 + "Leaf".len() + "x".len();
    let inner_data = object_with(vec![str_tag("Leaf", "x"), str_tag("Keep", "y")]);
    let mid = Tag::new(
        "Mid".to_string(),
        TagValue::Cont(Container::new_with_data(inner_data)),
    );
    let outer_data = object_with(vec![mid]);
    let mut ods = ObjectDataStructure::new(Vec::new());
    ods.append(Tag::new(
        "Top".to_string(),
        TagValue::Cont(Container::new_with_data(outer_data)),
    ));
    let before = ods.bytes();
    let top_size = u32::from_be_bytes([before[1], before[2], before[3], before[4]]);
    // "Mid"'s size field sits one byte into its record, which starts right
    // after "Top"'s 7-byte header and name.
    let mid_at = 7 + "Top".len() + 1;
    let mid_size = u32::from_be_bytes([
        before[mid_at],
        before[mid_at + 1],
        before[mid_at + 2],
        before[mid_at + 3],
    ]);
    assert!(ods.delete("Top.Mid.Leaf".to_string()).unwrap());
    assert!(!ods.find("Top.Mid.Leaf".to_string()).unwrap());
    assert!(ods.find("Top.Mid.Keep".to_string()).unwrap());
    let after = ods.bytes();
    let top_size2 = u32::from_be_bytes([after[1], after[2], after[3], after[4]]);
    let mid_size2 = u32::from_be_bytes([
        after[mid_at],
        after[mid_at + 1],
        after[mid_at + 2],
        after[mid_at + 3],
    ]);
    assert_eq!(top_size2, top_size - leaf_footprint as u32);
    assert_eq!(mid_size2, mid_size - leaf_footprint as u32);
}

use ods::ods::ObjectDataStructure;
use ods::tags::{Container, Tag, TagValue};

fn roundtrip(name: &str, value: TagValue) -> Tag {
    let mut ods = ObjectDataStructure::new(Vec::new());
    ods.append(Tag::new(name.to_string(), value));
    ods.get(name.to_string()).unwrap().unwrap()
}

#[test]
fn roundtrip_string() {
    let t = roundtrip("S", TagValue::Str("Hello".to_string()));
    assert_eq!(t.get_name(), "S");
    assert_eq!(t.get_id(), 1);
    assert!(matches!(t.get_value(), TagValue::Str(s) if s == "Hello"));
}

#[test]
fn roundtrip_string_multibyte() {
    // A value outside ASCII exercises real UTF-8 coding on both sides.
    let t = roundtrip("S", TagValue::Str("héllo — √2".to_string()));
    assert!(matches!(t.get_value(), TagValue::Str(s) if s == "héllo — √2"));
}

#[test]
fn roundtrip_int() {
    let t = roundtrip("I", TagValue::Int(-123456789));
    assert_eq!(t.get_id(), 2);
    assert!(matches!(t.get_value(), TagValue::Int(x) if *x == -123456789));
}

#[test]
fn roundtrip_float_bits() {
    let bits = 1.5f32.to_bits();
    let t = roundtrip("F", TagValue::Float(bits));
    assert_eq!(t.get_id(), 3);
    match t.get_value() {
        TagValue::Float(b) => assert_eq!(f32::from_bits(*b), 1.5f32),
        _ => panic!("expected a float"),
    }
}

#[test]
fn roundtrip_double_bits() {
    let bits = (-20.5436f64).to_bits();
    let t = roundtrip("D", TagValue::Double(bits));
    assert_eq!(t.get_id(), 4);
    match t.get_value() {
        TagValue::Double(b) => assert_eq!(f64::from_bits(*b), -20.5436f64),
        _ => panic!("expected a double"),
    }
}

#[test]
fn roundtrip_short() {
    let t = roundtrip("H", TagValue::Short(-2));
    assert_eq!(t.get_id(), 5);
    assert!(matches!(t.get_value(), TagValue::Short(x) if *x == -2));
}

#[test]
fn roundtrip_long() {
    let t = roundtrip("L", TagValue::Long(-9_000_000_000_000_000_000));
    assert_eq!(t.get_id(), 6);
    assert!(matches!(t.get_value(), TagValue::Long(x) if *x == -9_000_000_000_000_000_000));
}

#[test]
fn roundtrip_char() {
    let t = roundtrip("C", TagValue::Ch('Z'));
    assert_eq!(t.get_id(), 7);
    assert!(matches!(t.get_value(), TagValue::Ch(c) if *c == 'Z'));
}

#[test]
fn roundtrip_byte() {
    let t = roundtrip("B", TagValue::Byte(200));
    assert_eq!(t.get_id(), 8);
    assert!(matches!(t.get_value(), TagValue::Byte(x) if *x == 200));
}

#[test]
fn roundtrip_container() {
    let mut inner = ObjectDataStructure::new(Vec::new());
    inner.append(Tag::new("X".to_string(), TagValue::Byte(1)));
    let child_bytes = inner.bytes();
    let t = roundtrip(
        "K",
        TagValue::Cont(Container::new_with_data(child_bytes.clone())),
    );
    assert_eq!(t.get_id(), 9);
    match t.get_value() {
        TagValue::Cont(c) => assert_eq!(c.get_data().bytes(), child_bytes),
        _ => panic!("expected a container"),
    }
}

#[test]
fn record_layout_is_exact() {
    // [type][body size: u32 BE][name length: i16 BE][name][value], where the
    // body size covers everything after the size field.
    let mut ods = ObjectDataStructure::new(Vec::new());
    ods.append(Tag::new("A".to_string(), TagValue::Byte(7)));
    assert_eq!(ods.bytes(), vec![8, 0, 0, 0, 4, 0, 1, b'A', 7]);

    let mut ods2 = ObjectDataStructure::new(Vec::new());
    ods2.append(Tag::new("N".to_string(), TagValue::Int(-2)));
    assert_eq!(
        ods2.bytes(),
        vec![2, 0, 0, 0, 7, 0, 1, b'N', 0xFF, 0xFF, 0xFF, 0xFE]
    );
}

#[test]
fn vector_elements_have_empty_names() {
    let items = vec![
        Tag::new("ignored".to_string(), TagValue::Byte(1)),
        Tag::new("also ignored".to_string(), TagValue::Str("two".to_string())),
    ];
    let vec_tag = Tag::from_vec("List".to_string(), &items);
    assert_eq!(vec_tag.get_name(), "List");
    assert_eq!(vec_tag.get_id(), 9);
    let first = vec_tag.get(0).unwrap().unwrap();
    assert_eq!(first.get_name(), "");
    assert!(matches!(first.get_value(), TagValue::Byte(1)));
    let second = vec_tag.get(1).unwrap().unwrap();
    assert_eq!(second.get_name(), "");
    assert!(matches!(second.get_value(), TagValue::Str(s) if s == "two"));
    assert!(vec_tag.get(2).unwrap().is_none());
    assert!(vec_tag.is_type(0, 8).unwrap());
    assert!(vec_tag.is_type(1, 1).unwrap());
    assert!(!vec_tag.is_type(1, 8).unwrap());
    assert!(!vec_tag.is_type(5, 1).unwrap());
}

#[test]
fn add_appends_an_element() {
    let mut vec_tag = Tag::from_vec("List".to_string(), &Vec::new());
    vec_tag
        .add(Tag::new("x".to_string(), TagValue::Int(5)))
        .unwrap();
    vec_tag
        .add(Tag::new("y".to_string(), TagValue::Byte(9)))
        .unwrap();
    let first = vec_tag.get(0).unwrap().unwrap();
    assert!(matches!(first.get_value(), TagValue::Int(5)));
    assert!(vec_tag.is_type(1, 8).unwrap());
}

use ods::ods::ObjectDataStructure;
use ods::tags::{Container, Tag, TagValue};

fn str_tag(name: &str, value: &str) -> Tag {
    Tag::new(name.to_string(), TagValue::Str(value.to_string()))
}

fn value_string(tag: &Tag) -> String {
    match tag.get_value() {
        TagValue::Str(s) => s.clone(),
        _ => panic!("expected a string value"),
    }
}

#[test]
fn it_works() {
    // A buffer holding a vector container, an object, and a loose string tag.
    let vec_tag = Tag::from_vec(
        "My_Double".to_string(),
        &vec![
            str_tag("", "My Next Value!"),
            str_tag("", " greig erjiog eorjg oe!"),
            str_tag("", " few fw efwe!"),
            Tag::new("db".to_string(), TagValue::Double(20.5436f64.to_bits())),
        ],
    );
    let oof_fields = {
        let mut inner = ObjectDataStructure::new(Vec::new());
        inner.append(str_tag("My_Cool_Tag", "My Next Value!"));
        inner.append(str_tag("Name", " greig erjiog eorjg oe!"));
        inner.append(str_tag("Fun", " few fw efwe!"));
        inner.bytes()
    };
    let mut ods = ObjectDataStructure::new(Vec::new());
    ods.append(vec_tag);
    ods.append(Tag::new(
        "OOF".to_string(),
        TagValue::Cont(Container::new_with_data(oof_fields)),
    ));
    ods.append(str_tag("My_Cool_Tag", "My Next Value!"));

    let test = ods.get("My_Double".to_string()).unwrap().unwrap();
    assert_eq!(
        value_string(&test.get(1).unwrap().unwrap()),
        " greig erjiog eorjg oe!"
    );
    // Element 3 carries the double type id.
    assert!(test.is_type(3, 4).unwrap());

    let obj = ods.get("OOF".to_string()).unwrap().unwrap();
    assert_eq!(
        value_string(&obj.get(2).unwrap().unwrap()),
        " few fw efwe!"
    );
    let direct = ods.get("OOF.Fun".to_string()).unwrap().unwrap();
    assert_eq!(value_string(&direct), " few fw efwe!");

    assert!(!ods.find("Test_Tag".to_string()).unwrap());

    ods.append(str_tag("Test", "BOB"));
    assert_eq!(
        value_string(&ods.get("Test".to_string()).unwrap().unwrap()),
        "BOB"
    );

    assert!(ods
        .replace_data(
            "My_Cool_Tag".to_string(),
            str_tag("My_Cool_Tag", "My Other Value!"),
        )
        .unwrap());
    assert_eq!(
        value_string(&ods.get("My_Cool_Tag".to_string()).unwrap().unwrap()),
        "My Other Value!"
    );
}

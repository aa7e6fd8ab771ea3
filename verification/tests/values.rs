use traeger::{
    Append, Assign, Dict, Float, Get, Int, List, Null, SetIndex, SetKey, UInt, Value, Variant,
    NULL,
};

fn text(value: &str) -> traeger::String {
    traeger::String::from(value)
}

#[test]
fn map_get_is_typed() {
    let mut map = Dict::new();
    map.set("age", 30i64);
    let value = map.find_value("age").unwrap();
    let as_int: Option<Int> = value.get();
    let as_uint: Option<UInt> = value.get();
    assert_eq!(as_int, Some(30));
    assert_eq!(as_uint, None);
}

#[test]
fn uint_is_not_read_as_int() {
    let value = Value::from(7u64);
    let as_int: Option<Int> = value.get();
    let as_uint: Option<UInt> = value.get();
    assert_eq!(as_int, None);
    assert_eq!(as_uint, Some(7));
}

#[test]
fn small_integers_are_stored_as_int() {
    let mut list = List::new();
    list.append(-5i32);
    list.append(4000000000u32);
    assert_eq!(list.get(0), Some(Variant::Int(-5)));
    assert_eq!(list.get(1), Some(Variant::Int(4000000000)));
}

#[test]
fn value_starts_as_null() {
    let value = Value::new();
    let as_null: Option<Null> = value.get();
    assert_eq!(as_null, Some(NULL));
    assert_eq!(value.to_variant(), Variant::Null);
    let as_bool: Option<bool> = value.get();
    assert_eq!(as_bool, None);
}

#[test]
fn value_set_replaces_what_it_held() {
    let mut value = Value::new();
    value.set(true);
    assert_eq!(value.to_variant(), Variant::Bool(true));
    value.set("hello");
    let as_text: Option<std::string::String> = value.get();
    assert_eq!(as_text, Some("hello".to_string()));
    let as_bytes: Option<traeger::String> = value.get();
    assert_eq!(as_bytes, Some(text("hello")));
    value.set(Float::from_bits(1.5f64.to_bits()));
    let as_float: Option<Float> = value.get();
    assert_eq!(as_float.map(|float| f64::from_bits(float.to_bits())), Some(1.5));
    let always: Option<Variant> = value.get();
    assert_eq!(always, Some(Variant::Float(Float::from_bits(1.5f64.to_bits()))));
}

#[test]
fn text_that_is_not_utf8_is_absent_as_text() {
    let bytes: &[u8] = &[0xff, 0xfe];
    let value = Value::from_variant(Variant::String(traeger::String::from(bytes)));
    let as_text: Option<std::string::String> = value.get();
    assert_eq!(as_text, None);
    let as_bytes: Option<traeger::String> = value.get();
    assert_eq!(as_bytes.unwrap().as_slice(), bytes);
}

#[test]
fn string_keeps_its_bytes() {
    let string = text("héllo");
    assert_eq!(string.len(), 6);
    assert_eq!(string.as_slice(), "héllo".as_bytes());
    assert_eq!(string.as_str(), Some("héllo"));
    assert_eq!(string.clone(), string);
    assert_ne!(string, text("hello"));
    let broken = traeger::String::from_vec(vec![b'a', 0x80]);
    assert_eq!(broken.as_str(), None);
    assert_eq!(broken.into_vec(), vec![b'a', 0x80]);
}

#[test]
fn list_get_is_bounds_checked() {
    let mut list = List::new();
    assert!(list.is_empty());
    list.append("a");
    list.append(2i64);
    assert_eq!(list.len(), 2);
    assert!(!list.is_empty());
    assert_eq!(list.get(0), Some(Variant::String(text("a"))));
    assert_eq!(list.get(1), Some(Variant::Int(2)));
    assert_eq!(list.get(2), None);
    assert_eq!(list.get(-1), None);
    assert!(list.find_value(2).is_none());
    assert_eq!(list.find_value(1).unwrap().to_variant(), Variant::Int(2));
}

#[test]
fn list_set_never_grows_the_list() {
    let mut list = List::new();
    list.append(1i64);
    assert!(list.set(0, 5u64));
    assert_eq!(list.get(0), Some(Variant::UInt(5)));
    assert!(!list.set(1, 6u64));
    assert!(!list.set(-1, 6u64));
    assert_eq!(list.len(), 1);
    assert_eq!(list.get(0), Some(Variant::UInt(5)));
}

#[test]
fn list_resize_cuts_and_fills_with_null() {
    let mut list = List::new();
    list.append(1i64);
    list.append(2i64);
    list.append(3i64);
    assert_eq!(list.resize(1), 1);
    assert_eq!(list.len(), 1);
    assert_eq!(list.get(0), Some(Variant::Int(1)));
    assert_eq!(list.resize(3), 3);
    assert_eq!(list.get(1), Some(Variant::Null));
    assert_eq!(list.get(2), Some(Variant::Null));
    assert_eq!(list.resize(0), 0);
    assert!(list.is_empty());
}

#[test]
fn list_iterator_yields_items_in_order_and_restarts() {
    let mut list = List::new();
    list.append(1i64);
    list.append(true);
    let mut seen = Vec::new();
    let mut cursor = list.iter();
    while let Some(value) = cursor.next() {
        seen.push(value.to_variant());
    }
    assert_eq!(seen, vec![Variant::Int(1), Variant::Bool(true)]);
    assert!(cursor.next().is_none());
    let mut again = list.iter();
    assert_eq!(again.next().unwrap().to_variant(), Variant::Int(1));
}

#[test]
fn cloned_list_is_independent() {
    let mut list = List::new();
    list.append(1i64);
    list.append("two");
    let mut copy = list.clone();
    copy.append(3i64);
    copy.set(0, NULL);
    assert_eq!(list.len(), 2);
    assert_eq!(list.get(0), Some(Variant::Int(1)));
    assert_eq!(list.get(1), Some(Variant::String(text("two"))));
    assert_eq!(copy.len(), 3);
    assert_eq!(copy.get(0), Some(Variant::Null));
    assert_eq!(copy.get(2), Some(Variant::Int(3)));
}

#[test]
fn list_stored_in_a_list_is_a_copy() {
    let mut inner = List::new();
    inner.append(1i64);
    let mut outer = List::new();
    outer.append(&inner);
    inner.append(2i64);
    match outer.get(0) {
        Some(Variant::List(stored)) => assert_eq!(stored.len(), 1),
        other => panic!("unexpected item {:?}", other),
    }
}

#[test]
fn map_set_inserts_or_overwrites() {
    let mut map = Dict::new();
    assert!(map.is_empty());
    map.set("a", 1i64);
    map.set("b", 2i64);
    map.set("a", "one");
    assert_eq!(map.len(), 2);
    assert_eq!(map.get("a"), Some(Variant::String(text("one"))));
    assert_eq!(map.get("b"), Some(Variant::Int(2)));
    assert_eq!(map.get("c"), None);
    assert!(map.contains("a"));
    assert!(!map.contains("c"));
    assert!(map.has_key(b"b"));
}

#[test]
fn map_erase_removes_one_key() {
    let mut map = Dict::new();
    map.set("a", 1i64);
    map.set("b", 2i64);
    map.set("c", 3i64);
    map.erase("b");
    map.erase("missing");
    assert_eq!(map.len(), 2);
    assert!(!map.contains("b"));
    assert_eq!(map.get("a"), Some(Variant::Int(1)));
    assert_eq!(map.get("c"), Some(Variant::Int(3)));
}

#[test]
fn map_iterator_yields_entries_in_a_stable_order() {
    let mut map = Dict::new();
    map.set("x", 1i64);
    map.set("y", 2i64);
    map.set("x", 3i64);
    let mut seen = Vec::new();
    let mut cursor = map.iter();
    while let Some((key, value)) = cursor.next() {
        seen.push((key, value.to_variant()));
    }
    assert_eq!(seen, vec![(text("x"), Variant::Int(3)), (text("y"), Variant::Int(2))]);
    let mut again = map.iter();
    assert_eq!(again.next().unwrap().0, text("x"));
}

#[test]
fn cloned_map_is_independent() {
    let mut map = Dict::new();
    map.set("a", 1i64);
    let mut copy = map.clone();
    copy.set("a", 2i64);
    copy.set("b", 3i64);
    assert_eq!(map.len(), 1);
    assert_eq!(map.get("a"), Some(Variant::Int(1)));
    assert_eq!(copy.get("a"), Some(Variant::Int(2)));
}

#[test]
fn equality_is_by_value() {
    let mut a = List::new();
    a.append(1i64);
    let mut inner = Dict::new();
    inner.set("k", true);
    a.append(&inner);
    let mut b = List::new();
    b.append(1i64);
    b.append(&inner);
    assert_eq!(a, b);
    b.append(NULL);
    assert_ne!(a, b);
    assert_ne!(Variant::Int(1), Variant::UInt(1));
    assert_eq!(Value::from(&a), Value::from_variant(Variant::List(a.clone())));
}

#[test]
fn map_equality_ignores_order() {
    let mut a = Dict::new();
    a.set("x", 1i64);
    a.set("y", 2i64);
    let mut b = Dict::new();
    b.set("y", 2i64);
    b.set("x", 1i64);
    assert_eq!(a, b);
    b.set("x", 9i64);
    assert_ne!(a, b);
    let mut c = Dict::new();
    c.set("x", 1i64);
    assert_ne!(a, c);
}

#[test]
fn values_render_as_text() {
    assert_eq!(Variant::Null.to_string().as_str(), Some("null"));
    assert_eq!(Variant::Bool(true).to_string().as_str(), Some("true"));
    assert_eq!(Variant::Bool(false).to_string().as_str(), Some("false"));
    assert_eq!(Variant::Int(0).to_string().as_str(), Some("0"));
    assert_eq!(Variant::Int(-120).to_string().as_str(), Some("-120"));
    assert_eq!(Variant::Int(i64::MIN).to_string().as_str(), Some("-9223372036854775808"));
    assert_eq!(Variant::UInt(u64::MAX).to_string().as_str(), Some("18446744073709551615"));
    assert_eq!(
        Variant::Float(Float::from_bits(1.0f64.to_bits())).to_string().as_str(),
        Some("0x3ff0000000000000")
    );
    assert_eq!(
        Variant::Float(Float::from_bits(0xabcdef0123456789)).to_string().as_str(),
        Some("0xabcdef0123456789")
    );
    assert_eq!(Variant::UInt(1090).to_string().as_str(), Some("1090"));
    assert_eq!(Variant::String(text("hi")).to_string().as_str(), Some("\"hi\""));
}

#[test]
fn containers_render_as_text() {
    let mut list = List::new();
    assert_eq!(list.to_string().as_str(), Some("[]"));
    list.append(1i64);
    list.append("two");
    list.append(NULL);
    assert_eq!(list.to_string().as_str(), Some("[1, \"two\", null]"));
    let mut map = Dict::new();
    assert_eq!(map.to_string().as_str(), Some("{}"));
    map.set("age", 30i64);
    map.set("tags", &list);
    assert_eq!(map.to_string().as_str(), Some("{\"age\": 30, \"tags\": [1, \"two\", null]}"));
    assert_eq!(
        Value::from(&map).to_string().as_str(),
        Some("{\"age\": 30, \"tags\": [1, \"two\", null]}")
    );
}

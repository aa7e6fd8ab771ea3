use traeger::{Append, Dict, Float, Format, List, SetKey, Value, Variant, NULL};

fn binary() -> Format {
    Format::by_name("binary").unwrap()
}

fn nested(depth: usize) -> Variant {
    let mut variant = Variant::Null;
    for _ in 0..depth {
        let mut list = List::new();
        list.append(variant);
        variant = Variant::List(list);
    }
    variant
}

#[test]
fn formats_are_found_by_name() {
    assert!(Format::by_name("binary").is_some());
    assert_eq!(binary().name(), "binary");
    assert!(Format::by_name("json").is_none());
    assert!(Format::by_name("").is_none());
    assert!(Format::by_name("Binary").is_none());
}

#[test]
fn scalars_are_written_as_tag_and_content() {
    let format = binary();
    assert_eq!(format.encode(Variant::Null), Ok(vec![0]));
    assert_eq!(format.encode(Variant::Bool(false)), Ok(vec![1, 0]));
    assert_eq!(format.encode(Variant::Bool(true)), Ok(vec![1, 1]));
    assert_eq!(format.encode(Variant::Int(-2)), Ok(vec![2, 0xfe, 0xff, 0xff, 0xff, 0xff, 0xff, 0xff, 0xff]));
    assert_eq!(format.encode(Variant::UInt(0x0102)), Ok(vec![3, 2, 1, 0, 0, 0, 0, 0, 0]));
    assert_eq!(
        format.encode(Variant::Float(Float::from_bits(1.0f64.to_bits()))),
        Ok(vec![4, 0, 0, 0, 0, 0, 0, 0xf0, 0x3f])
    );
    assert_eq!(
        format.encode(Variant::String(traeger::String::from("hi"))),
        Ok(vec![5, 2, 0, 0, 0, 0, 0, 0, 0, b'h', b'i'])
    );
}

#[test]
fn containers_are_written_as_count_and_items() {
    let format = binary();
    let mut list = List::new();
    list.append(NULL);
    list.append(true);
    assert_eq!(
        format.encode(Variant::List(list)),
        Ok(vec![6, 2, 0, 0, 0, 0, 0, 0, 0, 0, 1, 1])
    );
    let mut map = Dict::new();
    map.set("k", NULL);
    assert_eq!(
        format.encode(Variant::Dict(map)),
        Ok(vec![7, 1, 0, 0, 0, 0, 0, 0, 0, 1, 0, 0, 0, 0, 0, 0, 0, b'k', 0])
    );
}

#[test]
fn every_kind_of_value_round_trips() {
    let format = binary();
    let mut inner = List::new();
    inner.append(-1i64);
    inner.append(u64::MAX);
    inner.append("text");
    let mut map = Dict::new();
    map.set("list", &inner);
    map.set("flag", false);
    map.set("nan", Float::from_bits(f64::NAN.to_bits()));
    map.set("", NULL);
    let mut outer = List::new();
    outer.append(&map);
    outer.append(&inner);
    outer.append(Float::from_bits((-0.0f64).to_bits()));
    let samples = vec![
        Variant::Null,
        Variant::Bool(true),
        Variant::Bool(false),
        Variant::Int(i64::MIN),
        Variant::Int(7),
        Variant::UInt(7),
        Variant::Float(Float::from_bits(3.25f64.to_bits())),
        Variant::String(traeger::String::from("")),
        Variant::String(traeger::String::from(&[0xffu8, 0x00][..])),
        Variant::List(List::new()),
        Variant::Dict(Dict::new()),
        Variant::List(inner.clone()),
        Variant::Dict(map.clone()),
        Variant::List(outer),
    ];
    for sample in samples {
        let bytes = format.encode(sample.clone()).unwrap();
        assert_eq!(format.decode(&bytes), Ok(sample));
    }
}

#[test]
fn int_and_uint_stay_apart_on_the_wire() {
    let format = binary();
    let int = format.encode(Variant::Int(5)).unwrap();
    let uint = format.encode(Variant::UInt(5)).unwrap();
    assert_ne!(int, uint);
    assert_eq!(format.decode(&int), Ok(Variant::Int(5)));
    assert_eq!(format.decode(&uint), Ok(Variant::UInt(5)));
}

#[test]
fn dictionary_order_survives_the_round_trip() {
    let format = binary();
    let mut map = Dict::new();
    map.set("b", 1i64);
    map.set("a", 2i64);
    let bytes = format.encode(Variant::Dict(map)).unwrap();
    match format.decode(&bytes) {
        Ok(Variant::Dict(read)) => {
            assert_eq!(read.to_string().as_str(), Some("{\"b\": 1, \"a\": 2}"));
        }
        other => panic!("unexpected value {:?}", other),
    }
}

#[test]
fn malformed_bytes_are_refused() {
    let format = binary();
    let malformed = Err("malformed input".to_string());
    assert_eq!(format.decode(&[]), malformed);
    assert_eq!(format.decode(&[8]), malformed);
    assert_eq!(format.decode(&[0, 0]), malformed);
    assert_eq!(format.decode(&[1]), malformed);
    assert_eq!(format.decode(&[1, 2]), malformed);
    assert_eq!(format.decode(&[2, 0, 0, 0]), malformed);
    assert_eq!(format.decode(&[5, 3, 0, 0, 0, 0, 0, 0, 0, b'a']), malformed);
    assert_eq!(format.decode(&[5, 0xff, 0xff, 0xff, 0xff, 0xff, 0xff, 0xff, 0xff]), malformed);
    assert_eq!(format.decode(&[6, 1, 0, 0, 0, 0, 0, 0, 0]), malformed);
    assert_eq!(format.decode(&[6, 0xff, 0xff, 0xff, 0xff, 0xff, 0xff, 0xff, 0xff, 0]), malformed);
    assert_eq!(format.decode(&[7, 1, 0, 0, 0, 0, 0, 0, 0, 1, 0, 0, 0, 0, 0, 0, 0, b'k']), malformed);
}

#[test]
fn repeated_key_is_refused() {
    let format = binary();
    let mut bytes = vec![7, 2, 0, 0, 0, 0, 0, 0, 0];
    for _ in 0..2 {
        bytes.extend_from_slice(&[1, 0, 0, 0, 0, 0, 0, 0, b'k', 0]);
    }
    assert_eq!(format.decode(&bytes), Err("malformed input".to_string()));
    bytes[19 + 8] = b'j';
    assert!(format.decode(&bytes).is_ok());
}

#[test]
fn depth_is_limited() {
    let format = binary();
    let deepest = nested(64);
    let bytes = format.encode(deepest.clone()).unwrap();
    assert_eq!(format.decode(&bytes), Ok(deepest));
    assert_eq!(format.encode(nested(65)), Err("value too deep".to_string()));
    let mut too_deep = Vec::new();
    for _ in 0..65 {
        too_deep.extend_from_slice(&[6, 1, 0, 0, 0, 0, 0, 0, 0]);
    }
    too_deep.push(0);
    assert_eq!(format.decode(&too_deep), Err("malformed input".to_string()));
}

#[test]
fn values_and_byte_strings_round_trip() {
    let format = binary();
    let value = Value::from("payload");
    let written = format.encode_value(&value).unwrap();
    assert_eq!(written.as_slice()[0], 5);
    let read = format.decode_string(&written).unwrap();
    assert_eq!(read, value);
    let broken = traeger::String::from(&[9u8][..]);
    match format.decode_string(&broken) {
        Err(message) => assert_eq!(message.as_str(), Some("malformed input")),
        Ok(value) => panic!("unexpected value {:?}", value),
    }
    match format.encode_value(&Value::from_variant(nested(65))) {
        Err(message) => assert_eq!(message.as_str(), Some("value too deep")),
        Ok(bytes) => panic!("unexpected bytes {:?}", bytes),
    }
}

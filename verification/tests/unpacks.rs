use traeger::{unpack_item, unpack_key, Append, Dict, Float, Int, List, SetKey, UInt, Variant};

type Unpacked<V> = std::result::Result<V, std::string::String>;

#[test]
fn item_is_unpacked_by_its_exact_type() {
    let mut list = List::new();
    list.append(Float::from_bits(2.5f64.to_bits()));
    list.append(7i64);
    list.append("seven");
    let amount: Unpacked<Float> = unpack_item(&list, 0);
    assert_eq!(amount.map(|float| f64::from_bits(float.to_bits())), Ok(2.5));
    let count: Unpacked<Int> = unpack_item(&list, 1);
    assert_eq!(count, Ok(7));
    let name: Unpacked<std::string::String> = unpack_item(&list, 2);
    assert_eq!(name, Ok("seven".to_string()));
    let any: Unpacked<Variant> = unpack_item(&list, 1);
    assert_eq!(any, Ok(Variant::Int(7)));
}

#[test]
fn missing_item_is_named_in_the_error() {
    let mut list = List::new();
    list.append(1i64);
    let missing: Unpacked<Int> = unpack_item(&list, 1);
    assert_eq!(missing, Err("invalid item '1'".to_string()));
    let far: Unpacked<Int> = unpack_item(&list, 1203);
    assert_eq!(far, Err("invalid item '1203'".to_string()));
    let negative: Unpacked<Int> = unpack_item(&list, -45);
    assert_eq!(negative, Err("invalid item '-45'".to_string()));
    let lowest: Unpacked<Variant> = unpack_item(&list, i32::MIN);
    assert_eq!(lowest, Err("invalid item '-2147483648'".to_string()));
}

#[test]
fn item_of_another_type_is_named_in_the_error() {
    let mut list = List::new();
    list.append(1i64);
    list.append(&List::new());
    let as_uint: Unpacked<UInt> = unpack_item(&list, 0);
    assert_eq!(as_uint, Err("invalid conversion of item '0' to type UInt".to_string()));
    let as_float: Unpacked<Float> = unpack_item(&list, 0);
    assert_eq!(
        as_float.map(|float| float.to_bits()),
        Err("invalid conversion of item '0' to type Float".to_string())
    );
    let as_text: Unpacked<traeger::String> = unpack_item(&list, 1);
    assert_eq!(as_text, Err("invalid conversion of item '1' to type String".to_string()));
    let as_map: Unpacked<Dict> = unpack_item(&list, 1);
    assert_eq!(as_map, Err("invalid conversion of item '1' to type Dict".to_string()));
    let as_null: Unpacked<()> = unpack_item(&list, 0);
    assert_eq!(as_null, Err("invalid conversion of item '0' to type Null".to_string()));
    let as_bool: Unpacked<bool> = unpack_item(&list, 0);
    assert_eq!(as_bool, Err("invalid conversion of item '0' to type Bool".to_string()));
    let as_list: Unpacked<List> = unpack_item(&list, 0);
    assert_eq!(as_list, Err("invalid conversion of item '0' to type List".to_string()));
    let as_int: Unpacked<Int> = unpack_item(&list, 1);
    assert_eq!(as_int, Err("invalid conversion of item '1' to type Int".to_string()));
}

#[test]
fn entry_is_unpacked_by_its_key() {
    let mut map = Dict::new();
    map.set("age", 30i64);
    let age: Unpacked<Int> = unpack_key(&map, "age");
    assert_eq!(age, Ok(30));
    let as_uint: Unpacked<UInt> = unpack_key(&map, "age");
    assert_eq!(as_uint, Err("invalid conversion of item 'age' to type UInt".to_string()));
    let missing: Unpacked<Int> = unpack_key(&map, "name");
    assert_eq!(missing, Err("invalid item 'name'".to_string()));
}

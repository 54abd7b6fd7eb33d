use indexmap::IndexMap;
use openstar_ads::symbol::map::{
    map_fits, tree_map_fits, FloatBits, PrimitiveValue, SymbolMap, SymbolMapExt, SymbolTypeMap,
    SymbolTypeMapExt,
};
use openstar_ads::symbol::tree::{tree_fits, SymbolTree};
use openstar_ads::symbol::type_tree::SymbolTypeTree;
use openstar_ads::timestamp::Timestamp;

fn field(name: &str, tree: SymbolTypeTree, offset: u32) -> (String, (SymbolTypeTree, Option<u32>)) {
    (name.to_string(), (tree, Some(offset)))
}

#[test]
fn test_integers() {
    let size = 12;
    let mut data: Vec<u8> = Vec::new();
    let fields = vec![
        field("integer", SymbolTypeTree::Int, 0),
        field("uinteger", SymbolTypeTree::Uint, 2),
        field("dinteger", SymbolTypeTree::Dint, 4),
        field("udinteger", SymbolTypeTree::Udint, 8),
        field("linteger", SymbolTypeTree::Lint, 16),
        field("ulinteger", SymbolTypeTree::Ulint, 24),
    ];

    data.append(&mut (-123_i16).to_le_bytes().to_vec());
    data.append(&mut 123u16.to_le_bytes().to_vec());
    data.append(&mut (-123456_i32).to_le_bytes().to_vec());
    data.append(&mut 123456u32.to_le_bytes().to_vec());
    data.append(&mut 0u32.to_le_bytes().to_vec());
    data.append(&mut (-123456789_i64).to_le_bytes().to_vec());
    data.append(&mut 123456789u64.to_le_bytes().to_vec());

    let symbol_type_tree = SymbolTypeTree::Struct(fields, size);
    let symbol_type_map = SymbolTypeMap::from_tree(symbol_type_tree, 0, "".to_string());
    let symbol_map = SymbolMap::from_bytes(&data, &symbol_type_map);

    let mut expected = IndexMap::new();
    expected.insert("integer".to_string(), PrimitiveValue::Int(-123));
    expected.insert("uinteger".to_string(), PrimitiveValue::Uint(123));
    expected.insert("dinteger".to_string(), PrimitiveValue::Int(-123456));
    expected.insert("udinteger".to_string(), PrimitiveValue::Uint(123456));
    expected.insert("linteger".to_string(), PrimitiveValue::Int(-123456789));
    expected.insert("ulinteger".to_string(), PrimitiveValue::Uint(123456789));

    assert_eq!(symbol_map, expected);
}

#[test]
fn test_date_time() {
    let size = 14;
    let mut data: Vec<u8> = Vec::new();

    let year: u16 = 2026;
    let month: u16 = 3;
    let day: u16 = 26;
    let hour: u16 = 4;
    let minute: u16 = 15;
    let second: u16 = 12;
    let milliseconds: u16 = 987;

    let fields = vec![
        field("wYear", SymbolTypeTree::Uint, 0),
        field("wMonth", SymbolTypeTree::Uint, 2),
        field("wDayOfWeek", SymbolTypeTree::Uint, 4),
        field("wDay", SymbolTypeTree::Uint, 6),
        field("wHour", SymbolTypeTree::Uint, 8),
        field("wMinute", SymbolTypeTree::Uint, 10),
        field("wSecond", SymbolTypeTree::Uint, 12),
        field("wMilliseconds", SymbolTypeTree::Uint, 14),
    ];

    data.append(&mut year.to_le_bytes().to_vec());
    data.append(&mut month.to_le_bytes().to_vec());
    data.append(&mut 4u16.to_le_bytes().to_vec());
    data.append(&mut day.to_le_bytes().to_vec());
    data.append(&mut hour.to_le_bytes().to_vec());
    data.append(&mut minute.to_le_bytes().to_vec());
    data.append(&mut second.to_le_bytes().to_vec());
    data.append(&mut milliseconds.to_le_bytes().to_vec());

    let symbol_type_tree = SymbolTypeTree::Struct(
        vec![field("timestamp", SymbolTypeTree::Struct(fields, size), 0)],
        size,
    );

    let symbol_type_map = SymbolTypeMap::from_tree(symbol_type_tree, 0, "status".to_string());
    let symbol_map = SymbolMap::from_bytes(&data, &symbol_type_map);

    let expected_date =
        Timestamp::from_parts(year, month, day, hour, minute, second, milliseconds).unwrap();
    let mut expected = IndexMap::new();
    expected.insert("status.timestamp".to_string(), PrimitiveValue::Timestamp(expected_date));

    assert_eq!(symbol_map, expected);
}

#[test]
fn test_boolean() {
    let size = 2;
    let mut data: Vec<u8> = Vec::new();
    let fields = vec![field("true", SymbolTypeTree::Bool, 0), field("false", SymbolTypeTree::Bool, 1)];

    data.append(&mut (1u8).to_le_bytes().to_vec());
    data.append(&mut (0u8).to_le_bytes().to_vec());

    let symbol_type_tree = SymbolTypeTree::Struct(fields, size);
    let symbol_type_map = SymbolTypeMap::from_tree(symbol_type_tree, 0, "".to_string());
    let symbol_map = SymbolMap::from_bytes(&data, &symbol_type_map);

    let mut expected = IndexMap::new();
    expected.insert("true".to_string(), PrimitiveValue::Bool(true));
    expected.insert("false".to_string(), PrimitiveValue::Bool(false));

    assert_eq!(symbol_map, expected);
}

#[test]
fn test_strings() {
    let size = 36;
    let mut data: Vec<u8> = Vec::new();
    let fields = vec![
        field("utf8", SymbolTypeTree::String(11), 0),
        field("utf16", SymbolTypeTree::Wstring(24), 12),
    ];

    data.append(&mut "Test string".as_bytes().to_vec());
    // Buffer byte for alignment
    data.push(0u8);
    data.append(
        &mut "Test string!"
            .encode_utf16()
            .flat_map(|word| word.to_le_bytes())
            .collect(),
    );

    let symbol_type_tree = SymbolTypeTree::Struct(fields, size);
    let symbol_type_map = SymbolTypeMap::from_tree(symbol_type_tree, 0, "".to_string());
    let symbol_map = SymbolMap::from_bytes(&data, &symbol_type_map);

    let mut expected = IndexMap::new();
    expected.insert("utf8".to_string(), PrimitiveValue::String("Test string".to_string()));
    expected.insert("utf16".to_string(), PrimitiveValue::String("Test string!".to_string()));

    assert_eq!(symbol_map, expected);
}

#[test]
fn test_reals() {
    let size = 16;
    let mut data: Vec<u8> = Vec::new();
    let fields = vec![field("f64", SymbolTypeTree::Lreal, 0), field("f32", SymbolTypeTree::Real, 8)];

    data.append(&mut 1.23f64.to_le_bytes().to_vec());
    data.append(&mut 4.56f32.to_le_bytes().to_vec());

    let symbol_type_tree = SymbolTypeTree::Struct(fields, size);
    let symbol_type_map = SymbolTypeMap::from_tree(symbol_type_tree, 0, "".to_string());
    let symbol_map = SymbolMap::from_bytes(&data, &symbol_type_map);

    let mut expected = IndexMap::new();
    expected.insert("f64".to_string(), PrimitiveValue::Float(FloatBits::F64(1.23f64.to_bits())));
    expected.insert("f32".to_string(), PrimitiveValue::Float(FloatBits::F32(4.56f32.to_bits())));

    assert_eq!(symbol_map, expected);
    // The bits stand for the same numbers.
    if let Some(PrimitiveValue::Float(FloatBits::F32(bits))) = symbol_map.get("f32") {
        assert_eq!(f32::from_bits(*bits) as f64, 4.56f32 as f64);
    } else {
        panic!("f32 entry missing");
    }
}

#[test]
fn test_void() {
    let size = 12;
    let mut data: Vec<u8> = Vec::new();
    let fields = vec![field("u128", SymbolTypeTree::Void(16), 0)];

    data.append(
        // Designed to be bytes ascending from 1 to 16
        &mut 21345817372864405881847059188222722561u128.to_le_bytes().to_vec(),
    );

    let symbol_type_tree = SymbolTypeTree::Struct(fields, size);
    let symbol_type_map = SymbolTypeMap::from_tree(symbol_type_tree, 0, "".to_string());
    let symbol_map = SymbolMap::from_bytes(&data, &symbol_type_map);

    let mut expected = IndexMap::new();
    expected.insert(
        "u128".to_string(),
        PrimitiveValue::Void(vec![1u8, 2u8, 3u8, 4u8, 5u8, 6u8, 7u8, 8u8, 9u8, 10u8, 11u8, 12u8, 13u8, 14u8, 15u8, 16u8]),
    );

    assert_eq!(symbol_map, expected);
}

#[test]
fn symbol_tree_get_child_path_composition() {
    let inner = vec![field("x", SymbolTypeTree::Uint, 0), field("y", SymbolTypeTree::Int, 2)];
    let tree = SymbolTypeTree::Struct(vec![field("status", SymbolTypeTree::Struct(inner, 4), 0)], 4);
    assert_eq!(tree.get_child("status.y"), &SymbolTypeTree::Int);
    assert_eq!(tree.get_child("status").get_child("y"), &SymbolTypeTree::Int);
    assert_eq!(tree.get_child("status.z"), &SymbolTypeTree::Missing);
    assert_eq!(tree.get_child("status.x.w"), &SymbolTypeTree::Missing);
    assert_eq!(tree.get_child("status").get_size(), 4);

    let data = [7u8, 0, 0xfe, 0xff];
    let values = SymbolTree::from_bytes(&data, &tree, 0);
    assert_eq!(values.get_child("status.x"), &SymbolTree::Uint(7));
    assert_eq!(values.get_child("status").get_child("y"), &SymbolTree::Int(-2));
    assert_eq!(values.get_child("nope"), &SymbolTree::Missing);
}

#[test]
fn symbol_tree_timestamp_and_malformed() {
    let fields = vec![
        field("wYear", SymbolTypeTree::Uint, 0),
        field("wMonth", SymbolTypeTree::Uint, 2),
        field("wDayOfWeek", SymbolTypeTree::Uint, 4),
        field("wDay", SymbolTypeTree::Uint, 6),
        field("wHour", SymbolTypeTree::Uint, 8),
        field("wMinute", SymbolTypeTree::Uint, 10),
        field("wSecond", SymbolTypeTree::Uint, 12),
        field("wMilliseconds", SymbolTypeTree::Uint, 14),
    ];
    let tree = SymbolTypeTree::Struct(vec![field("ts", SymbolTypeTree::Struct(fields, 16), 0)], 16);
    let mut data = Vec::new();
    for w in [2024u16, 2, 29, 4, 23, 59, 58, 999] {
        data.extend_from_slice(&w.to_le_bytes());
    }
    let values = SymbolTree::from_bytes(&data, &tree, 0);
    let ts = values.get_timestamp("ts").unwrap();
    assert_eq!((ts.year(), ts.month(), ts.day()), (2024, 2, 4));
    // An integer past the end of the data is malformed.
    let short = SymbolTypeTree::Struct(vec![field("d", SymbolTypeTree::Dint, 2)], 6);
    let values = SymbolTree::from_bytes(&[1, 2, 3], &short, 0);
    assert_eq!(values.get_child("d"), &SymbolTree::Malformed);
}

#[test]
fn bounds_checks_before_decoding() {
    let tree = SymbolTypeTree::Struct(vec![field("s", SymbolTypeTree::String(8), 2)], 10);
    assert!(tree_fits(10, &tree, 0));
    assert!(!tree_fits(9, &tree, 0));
    assert!(tree_map_fits(&tree, 0));
    assert!(!tree_map_fits(&SymbolTypeTree::Compound(4), 0));
    let big = SymbolTypeTree::Struct(vec![field("x", SymbolTypeTree::Int, u32::MAX)], 2);
    assert!(!tree_map_fits(&big, 1));
    let map = SymbolTypeMap::from_tree(tree, 0, String::new());
    assert!(map_fits(&map, &[0u8; 10]));
    assert!(!map_fits(&map, &[0u8; 9]));
}

#[test]
fn map_values_are_tree_leaves() {
    let inner = vec![field("a", SymbolTypeTree::Int, 0), field("b", SymbolTypeTree::String(3), 2)];
    let tree = SymbolTypeTree::Struct(
        vec![field("n", SymbolTypeTree::Udint, 0), field("s", SymbolTypeTree::Struct(inner, 5), 4)],
        9,
    );
    let data = [1u8, 0, 0, 0, 0xff, 0xff, b'x', b'y', b'z'];
    let values = SymbolTree::from_bytes(&data, &tree, 0);
    let map = SymbolMap::from_bytes(&data, &SymbolTypeMap::from_tree(tree, 0, String::new()));
    let keys: Vec<&String> = map.keys().collect();
    assert_eq!(keys, vec!["n", "s.a", "s.b"]);
    assert_eq!(values.get_child("n"), &SymbolTree::Udint(1));
    assert_eq!(map["n"], PrimitiveValue::Uint(1));
    assert_eq!(values.get_child("s.a"), &SymbolTree::Int(-1));
    assert_eq!(map["s.a"], PrimitiveValue::Int(-1));
    assert_eq!(values.get_child("s.b"), &SymbolTree::String("xyz".to_string()));
    assert_eq!(map["s.b"], PrimitiveValue::String("xyz".to_string()));
}

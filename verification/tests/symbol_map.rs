use indexmap::IndexMap;
use openstar_ads::data_types::symbol_map::{
    map_fits, tree_map_fits, PrimitiveSymbolDescriptor, PrimitiveSymbolType, PrimitiveValue,
    SymbolMap, SymbolMapExt, SymbolTypeMap, SymbolTypeMapExt,
};
use openstar_ads::low::notification::Sample;
use openstar_ads::plc_connection::{
    map_receiver_step, sample_maps, tree_receiver_step, ReceiverEvent, ReceiverStep,
};
use openstar_ads::symbol::map as nested;
use openstar_ads::symbol::map::{
    FloatBits, SymbolMapExt as NestedSymbolMapExt, SymbolTypeMapExt as NestedSymbolTypeMapExt,
};
use openstar_ads::symbol::type_tree::SymbolTypeTree;
use openstar_ads::timestamp::Timestamp;

fn field(name: &str, tree: SymbolTypeTree, offset: u32) -> (String, (SymbolTypeTree, Option<u32>)) {
    (name.to_string(), (tree, Some(offset)))
}

fn time_struct_fields() -> Vec<(String, (SymbolTypeTree, Option<u32>))> {
    vec![
        field("year", SymbolTypeTree::Uint, 0),
        field("month", SymbolTypeTree::Uint, 2),
        field("day", SymbolTypeTree::Uint, 4),
        field("hour", SymbolTypeTree::Uint, 6),
        field("minute", SymbolTypeTree::Uint, 8),
        field("second", SymbolTypeTree::Uint, 10),
        field("milliseconds", SymbolTypeTree::Uint, 12),
    ]
}

#[test]
fn flat_map_paths_start_with_a_period() {
    let fields = vec![
        field("a", SymbolTypeTree::Int, 0),
        field("b", SymbolTypeTree::Struct(vec![field("c", SymbolTypeTree::Udint, 0)], 4), 2),
        ("gone".to_string(), (SymbolTypeTree::Dint, None)),
        field("raw", SymbolTypeTree::Void(3), 6),
    ];
    let tree = SymbolTypeTree::Struct(fields, 9);
    assert!(tree_map_fits(&tree, 0));
    let map = SymbolTypeMap::from_tree(tree, 0, "".to_string());

    let mut expected = IndexMap::new();
    expected.insert(".a".to_string(), PrimitiveSymbolDescriptor::from((PrimitiveSymbolType::Int, 0)));
    expected.insert(".b.c".to_string(), PrimitiveSymbolDescriptor::from_type(PrimitiveSymbolType::Udint, 2));
    assert_eq!(map, expected);
}

#[test]
fn flat_map_numbers_and_missing() {
    let fields = vec![
        field("i", SymbolTypeTree::Int, 0),
        field("u", SymbolTypeTree::Uint, 2),
        field("d", SymbolTypeTree::Dint, 4),
        field("l", SymbolTypeTree::Lint, 8),
        field("s", SymbolTypeTree::Sint, 16),
        field("r", SymbolTypeTree::Real, 17),
        field("far", SymbolTypeTree::Ulint, 18),
    ];
    let mut data: Vec<u8> = Vec::new();
    data.extend_from_slice(&(-123i16).to_le_bytes());
    data.extend_from_slice(&(123u16).to_le_bytes());
    data.extend_from_slice(&(-123456i32).to_le_bytes());
    data.extend_from_slice(&(-123456789i64).to_le_bytes());
    data.push(0xff);
    data.extend_from_slice(&(1.5f32).to_le_bytes());
    // `far` starts at 18 but only 3 bytes remain there.
    data.truncate(21);

    let tree = SymbolTypeTree::Struct(fields, 26);
    let type_map = SymbolTypeMap::from_tree(tree, 0, "x".to_string());
    assert!(map_fits(&type_map, &data));
    let values = SymbolMap::from_bytes(&type_map, &data);

    let mut expected = IndexMap::new();
    expected.insert("x.i".to_string(), PrimitiveValue::Int(-123));
    expected.insert("x.u".to_string(), PrimitiveValue::Uint(123));
    expected.insert("x.d".to_string(), PrimitiveValue::Int(-123456));
    expected.insert("x.l".to_string(), PrimitiveValue::Int(-123456789));
    expected.insert("x.s".to_string(), PrimitiveValue::Int(-1));
    expected.insert("x.r".to_string(), PrimitiveValue::Float(FloatBits::F32(1.5f32.to_bits())));
    expected.insert("x.far".to_string(), PrimitiveValue::Missing);
    assert_eq!(values, expected);
}

#[test]
fn flat_map_time_struct() {
    let tree = SymbolTypeTree::Struct(time_struct_fields(), 14);
    let type_map = SymbolTypeMap::from_tree(tree, 0, "t".to_string());
    let mut expected_types = IndexMap::new();
    expected_types.insert(
        "t".to_string(),
        PrimitiveSymbolDescriptor::from_type(PrimitiveSymbolType::TimeStruct([0, 2, 4, 6, 8, 10, 12]), 0),
    );
    assert_eq!(type_map, expected_types);

    let mut data: Vec<u8> = Vec::new();
    for word in [2026u16, 3, 26, 4, 15, 12, 987] {
        data.extend_from_slice(&word.to_le_bytes());
    }
    let values = SymbolMap::from_bytes(&type_map, &data);
    let mut expected = IndexMap::new();
    expected.insert(
        "t".to_string(),
        PrimitiveValue::Timestamp(Timestamp::from_parts(2026, 3, 26, 4, 15, 12, 987).unwrap()),
    );
    assert_eq!(values, expected);

    // The thirty-first of February is no date.
    let mut bad = data.clone();
    bad[2..4].copy_from_slice(&2u16.to_le_bytes());
    bad[4..6].copy_from_slice(&31u16.to_le_bytes());
    let values = SymbolMap::from_bytes(&type_map, &bad);
    assert_eq!(values.get("t"), Some(&PrimitiveValue::Missing));
}

#[test]
fn flat_map_time_struct_with_a_bad_word_has_no_entry() {
    let mut fields = time_struct_fields();
    fields[3].1 .0 = SymbolTypeTree::Int;
    let type_map = SymbolTypeMap::from_tree(SymbolTypeTree::Struct(fields, 14), 0, "t".to_string());
    assert!(type_map.is_empty());

    let mut fields = time_struct_fields();
    fields[6].1 .1 = None;
    let type_map = SymbolTypeMap::from_tree(SymbolTypeTree::Struct(fields, 14), 0, "t".to_string());
    assert!(type_map.is_empty());
}

#[test]
fn flat_map_booleans_need_one_byte() {
    let bool_at = |offset| PrimitiveSymbolDescriptor::from_type(PrimitiveSymbolType::Bool, offset);
    // A byte of 1 reads as false and anything else as true.
    assert_eq!(bool_at(0).read_from_bytes(&[1]), PrimitiveValue::Bool(false));
    assert_eq!(bool_at(0).read_from_bytes(&[0]), PrimitiveValue::Bool(true));
    assert_eq!(bool_at(1).read_from_bytes(&[7, 1]), PrimitiveValue::Bool(false));
    // More than one remaining byte is no boolean.
    assert_eq!(bool_at(0).read_from_bytes(&[0, 1]), PrimitiveValue::Missing);
}

#[test]
fn flat_map_strings() {
    let text = PrimitiveSymbolDescriptor::from_type(PrimitiveSymbolType::String(5), 1);
    assert_eq!(
        text.read_from_bytes(b"xhello!"),
        PrimitiveValue::String("hello".to_string())
    );
    let wide = PrimitiveSymbolDescriptor::from_type(PrimitiveSymbolType::Wstring(4), 0);
    let bytes: Vec<u8> = "hi".encode_utf16().flat_map(|w| w.to_le_bytes()).collect();
    assert_eq!(wide.read_from_bytes(&bytes), PrimitiveValue::String("hi".to_string()));
    let odd = PrimitiveSymbolDescriptor::from_type(PrimitiveSymbolType::Wstring(3), 0);
    assert_eq!(odd.read_from_bytes(&bytes), PrimitiveValue::Missing);
    // Reading past the end is refused before decoding.
    let long = PrimitiveSymbolDescriptor::from_type(PrimitiveSymbolType::String(9), 0);
    assert!(!long.read_fits(b"short"));
    assert!(text.read_fits(b"xhello!"));
}

#[test]
fn flat_map_reals() {
    let lreal = PrimitiveSymbolDescriptor::from_type(PrimitiveSymbolType::Lreal, 0);
    assert_eq!(
        lreal.read_from_bytes(&(2.25f64).to_le_bytes()),
        PrimitiveValue::Float(FloatBits::F64(2.25f64.to_bits()))
    );
    // 1.0 as an 80-bit float: fraction with the integer bit set, exponent 0x3fff.
    let mut ext = (1u64 << 63).to_le_bytes().to_vec();
    ext.extend_from_slice(&0x3fffu16.to_le_bytes());
    let real80 = PrimitiveSymbolDescriptor::from_type(PrimitiveSymbolType::Real80, 0);
    assert_eq!(real80.read_from_bytes(&ext), PrimitiveValue::Float(FloatBits::F64(1.0f64.to_bits())));
    assert_eq!(real80.read_from_bytes(&ext[0..9]), PrimitiveValue::Missing);
}

#[test]
fn flat_maps_of_matching_samples() {
    let tree = SymbolTypeTree::Struct(vec![field("v", SymbolTypeTree::Uint, 0)], 2);
    let type_map = SymbolTypeMap::from_tree(tree, 0, "".to_string());
    let samples = vec![
        Sample { handle: 7, timestamp: 1, data: vec![5, 0] },
        Sample { handle: 8, timestamp: 2, data: vec![6, 0] },
        Sample { handle: 7, timestamp: 3, data: vec![9, 1] },
    ];
    let maps = sample_maps(&samples, 7, &type_map);
    assert_eq!(maps.len(), 2);
    assert_eq!(maps[0].get(".v"), Some(&PrimitiveValue::Uint(5)));
    assert_eq!(maps[1].get(".v"), Some(&PrimitiveValue::Uint(265)));
}

#[test]
fn decoded_maps_keep_the_type_maps_paths_in_order() {
    let inner = SymbolTypeTree::Struct(vec![field("x", SymbolTypeTree::Usint, 0), field("y", SymbolTypeTree::Usint, 1)], 2);
    let tree = SymbolTypeTree::Struct(
        vec![field("b", inner, 0), field("a", SymbolTypeTree::Uint, 2), field("c", SymbolTypeTree::Int, 4)],
        6,
    );
    let data = [1u8, 2, 3, 0, 4, 0];

    let type_map = SymbolTypeMap::from_tree(tree, 0, "".to_string());
    let values = SymbolMap::from_bytes(&type_map, &data);
    let type_keys: Vec<&String> = type_map.keys().collect();
    let value_keys: Vec<&String> = values.keys().collect();
    assert_eq!(type_keys, vec![".b.x", ".b.y", ".a", ".c"]);
    assert_eq!(value_keys, type_keys);
    assert_eq!(values[".a"], PrimitiveValue::Uint(3));

    let inner = SymbolTypeTree::Struct(vec![field("x", SymbolTypeTree::Usint, 0), field("y", SymbolTypeTree::Usint, 1)], 2);
    let tree = SymbolTypeTree::Struct(
        vec![field("b", inner, 0), field("a", SymbolTypeTree::Uint, 2), field("c", SymbolTypeTree::Int, 4)],
        6,
    );
    let type_map = <nested::SymbolTypeMap as NestedSymbolTypeMapExt>::from_tree(tree, 0, "".to_string());
    let values = <nested::SymbolMap as NestedSymbolMapExt>::from_bytes(&data, &type_map);
    let type_keys: Vec<&String> = type_map.keys().collect();
    let value_keys: Vec<&String> = values.keys().collect();
    assert_eq!(type_keys, vec!["b.x", "b.y", "a", "c"]);
    assert_eq!(value_keys, type_keys);
}

#[test]
fn extended_reals_become_the_nearest_double() {
    // 1.0 and -2.5 as 80-bit floats: the fraction with its integer bit set,
    // then the sign-and-exponent word.
    let mut data = (1u64 << 63).to_le_bytes().to_vec();
    data.extend_from_slice(&0x3fffu16.to_le_bytes());
    data.extend_from_slice(&(0xa000_0000_0000_0000u64).to_le_bytes());
    data.extend_from_slice(&0xc000u16.to_le_bytes());
    let tree = SymbolTypeTree::Struct(
        vec![field("one", SymbolTypeTree::Real80, 0), field("minus", SymbolTypeTree::Real80, 10)],
        20,
    );

    let type_map = <nested::SymbolTypeMap as NestedSymbolTypeMapExt>::from_tree(
        SymbolTypeTree::Struct(
            vec![field("one", SymbolTypeTree::Real80, 0), field("minus", SymbolTypeTree::Real80, 10)],
            20,
        ),
        0,
        "".to_string(),
    );
    let values = <nested::SymbolMap as NestedSymbolMapExt>::from_bytes(&data, &type_map);
    assert_eq!(values["one"], nested::PrimitiveValue::Float(FloatBits::F64(1.0f64.to_bits())));
    assert_eq!(values["minus"], nested::PrimitiveValue::Float(FloatBits::F64((-2.5f64).to_bits())));

    let decoded = openstar_ads::symbol::tree::SymbolTree::from_bytes(&data, &tree, 0);
    assert_eq!(
        decoded.get_child("minus"),
        &openstar_ads::symbol::tree::SymbolTree::Real80((-2.5f64).to_bits())
    );
}

#[test]
fn receiver_steps_decode_their_own_samples() {
    let tree = SymbolTypeTree::Struct(vec![field("v", SymbolTypeTree::Uint, 0)], 2);
    let type_map = SymbolTypeMap::from_tree(
        SymbolTypeTree::Struct(vec![field("v", SymbolTypeTree::Uint, 0)], 2),
        0,
        "".to_string(),
    );
    let samples = || {
        vec![
            Sample { handle: 7, timestamp: 1, data: vec![5, 0] },
            Sample { handle: 8, timestamp: 2, data: vec![6] },
        ]
    };

    assert!(matches!(tree_receiver_step(None, ReceiverEvent::Closed, &tree), ReceiverStep::NotConnected));
    match tree_receiver_step(Some(7), ReceiverEvent::Samples(samples()), &tree) {
        ReceiverStep::Deliver(trees) => assert_eq!(trees.len(), 1),
        _ => panic!("samples were not delivered"),
    }
    assert!(matches!(tree_receiver_step(Some(7), ReceiverEvent::Closed, &tree), ReceiverStep::Finish));
    assert!(matches!(tree_receiver_step(Some(7), ReceiverEvent::SendFailed, &tree), ReceiverStep::Finish));

    match map_receiver_step(Some(7), ReceiverEvent::Samples(samples()), &type_map) {
        ReceiverStep::Deliver(maps) => {
            assert_eq!(maps.len(), 1);
            assert_eq!(maps[0].get(".v"), Some(&PrimitiveValue::Uint(5)));
        }
        _ => panic!("samples were not delivered"),
    }
    assert!(matches!(
        map_receiver_step(Some(7), ReceiverEvent::TimedOut, &type_map),
        ReceiverStep::Fail("Receive error while receiving from PLC notification channel.")
    ));
    assert!(matches!(map_receiver_step(None, ReceiverEvent::TimedOut, &type_map), ReceiverStep::NotConnected));
}

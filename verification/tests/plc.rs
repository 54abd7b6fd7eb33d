use openstar_ads::ads::{after_connect, require_client, AdsBuilder, AdsConnection, RunModeStep};
use openstar_ads::data_types::symbol_tree::SymbolTree as SampleTree;
use openstar_ads::data_types::time_struct::AdsTimeStruct;
use openstar_ads::data_types::{AdsBool, AdsDint, AdsInt, AdsTime, AdsUdint, AdsUint, AdsWord, PlcDataType};
use openstar_ads::low::client::Timeouts;
use openstar_ads::low::errors::Error;
use openstar_ads::low::notification::Sample;
use openstar_ads::low::requests::TransmissionMode;
use openstar_ads::netid::{AmsAddr, AmsNetId, IntErrorKind, ParseAmsAddrError, ParseAmsNetIdError};
use openstar_ads::params::PlcParams;
use openstar_ads::plc_client::{subscription_attributes, HandleCache, PlcClient};
use openstar_ads::plc_connection::sample_trees;
use openstar_ads::protocol::{AdsState, Command};
use openstar_ads::symbol::info::{dynamic_type_tree, Field, Symbol, SymbolTypeTreeError, Type, TypeMap};
use openstar_ads::symbol::type_tree::SymbolTypeTree;
use std::sync::Arc;

#[test]
fn netid_text_roundtrip() {
    let id = AmsNetId::new(192, 168, 0, 10, 1, 1);
    assert_eq!(id.to_string(), "192.168.0.10.1.1");
    assert_eq!(AmsNetId::parse("192.168.0.10.1.1"), Ok(id));
    assert_eq!(AmsNetId::parse("1.2.3.4.5"), Err(ParseAmsNetIdError::Not6Bytes));
    assert_eq!(
        AmsNetId::parse("1.2.3.4.5.256"),
        Err(ParseAmsNetIdError::ParseByte(IntErrorKind::PosOverflow))
    );
    assert_eq!(
        AmsNetId::parse("1.2.x.4.5.6"),
        Err(ParseAmsNetIdError::ParseByte(IntErrorKind::InvalidDigit))
    );
    assert_eq!(AmsNetId::parse("1..3.4.5.6"), Err(ParseAmsNetIdError::ParseByte(IntErrorKind::Empty)));
    assert!(AmsNetId::new(0, 0, 0, 0, 0, 0).is_zero());
    assert!(!id.is_zero());
    assert_eq!(AmsNetId::local(), AmsNetId::new(127, 0, 0, 1, 1, 1));
    assert_eq!(AmsNetId::from_ip([10, 1, 2, 3], 1, 1), AmsNetId::new(10, 1, 2, 3, 1, 1));
    assert_eq!(AmsNetId::from_slice(&[1, 2, 3, 4, 5, 6]), Some(AmsNetId::new(1, 2, 3, 4, 5, 6)));
    assert_eq!(AmsNetId::from_slice(&[1, 2, 3]), None);
    let a = AmsAddr::new(id, 851);
    assert_eq!(a.to_string(), "192.168.0.10.1.1:851");
    assert_eq!(AmsAddr::parse("192.168.0.10.1.1:851"), Ok(a));
    assert_eq!(
        AmsAddr::parse("1.2.3.4.5.6:70000"),
        Err(ParseAmsAddrError::InvalidPortNumber(IntErrorKind::PosOverflow))
    );
    assert!(matches!(AmsAddr::parse("1.2.3.4.5.6"), Err(ParseAmsAddrError::InvalidInput { .. })));
    assert!(a.equals(&AmsAddr::new(id, 851)));
    assert!(!a.equals(&AmsAddr::new(id, 852)));
}

#[test]
fn ads_states_and_commands() {
    assert_eq!(AdsState::try_from_code(5), Ok(AdsState::Run));
    assert_eq!(AdsState::try_from_code(20), Err("invalid state constant"));
    assert_eq!(AdsState::parse("RuN"), Ok(AdsState::Run));
    assert_eq!(AdsState::parse("savecfg"), Ok(AdsState::SaveCfg));
    assert_eq!(AdsState::parse("running"), Err("invalid state name"));
    assert_eq!(AdsState::Exception.code(), 19);
    assert_eq!(Command::ReadWrite.code(), 9);
    assert_eq!(Command::AddNotification.action(), "add notification");
}

#[test]
fn data_type_layouts() {
    let d: AdsDint = AdsDint::from_bytes(&(-5i32).to_le_bytes()).unwrap();
    assert_eq!(i32::from(d), -5);
    assert_eq!(d.as_bytes(), (-5i32).to_le_bytes().to_vec());
    assert_eq!(AdsDint::size(), 4);
    assert!(AdsDint::from_bytes(&[1, 2, 3]).is_none());
    let i = AdsInt::from(-300i16);
    assert_eq!(i.as_bytes(), (-300i16).to_le_bytes().to_vec());
    assert_eq!(i16::from(AdsInt::from_bytes(&i.as_bytes()).unwrap()), -300);
    assert_eq!(u32::from(AdsUdint::from(7u32)), 7);
    assert_eq!(u16::from(AdsUint::from(9u16)), 9);
    assert_eq!(u16::from(AdsWord::from_bytes(&[1, 2]).unwrap()), 0x0201);
    let t = AdsTime::from(1500u32);
    assert_eq!(t.as_bytes(), vec![0xdc, 0x05, 0, 0]);
    assert_eq!(u32::from(AdsTime::from_bytes(&t.as_bytes()).unwrap()), 1500);
    assert_eq!(AdsBool::from(true).as_bytes(), vec![1]);
    assert!(!AdsBool::from_bytes(&[0]).unwrap().to_bool());
    let w = AdsUdint::from_words([1, 2]);
    let v = u32::from(w);
    assert!(v == 0x0002_0001 || v == 0x0001_0002);
    let from = u32::from(AdsUdint::from([1u16, 2u16]));
    assert_eq!(from, v);
}

#[test]
fn time_struct_conversion() {
    let mut raw = Vec::new();
    for w in [2026u16, 3, 4, 26, 4, 15, 12, 987] {
        raw.extend_from_slice(&w.to_le_bytes());
    }
    let ts = AdsTimeStruct::from_bytes(&raw).unwrap();
    assert_eq!(ts.as_bytes(), raw);
    let t = ts.to_timestamp().unwrap();
    assert_eq!((t.year(), t.month(), t.day(), t.hour(), t.minute(), t.second(), t.millisecond()), (2026, 3, 26, 4, 15, 12, 987));
    let mut bad = raw.clone();
    bad[2] = 13;
    assert!(AdsTimeStruct::from_bytes(&bad).unwrap().to_timestamp().is_none());
}

#[test]
fn params_concatenate() {
    let p = (AdsInt::from(1i16), AdsUdint::from(2u32), AdsBool::from(true));
    assert_eq!(p.as_data(), vec![1, 0, 2, 0, 0, 0, 1]);
    assert_eq!(AdsUint::from(3u16).as_data(), vec![3, 0]);
}

fn field(name: &str, typ: &str, base_type: u32, size: usize, offset: u32) -> Field {
    Field { name: name.into(), typ: typ.into(), offset: Some(offset), size, base_type, flags: 0 }
}

#[test]
fn dynamic_type_trees() {
    let status = Type {
        name: "ST_Status".into(),
        size: 6,
        fields: vec![field("count", "UINT", 18, 2, 0), field("inner", "ST_Missing", 65, 4, 2)],
        base_type: 65,
        flags: 0,
    };
    let array = Type { name: "ARRAY".into(), size: 8, fields: vec![], base_type: 65, flags: 0 };
    let mut type_map = TypeMap::new();
    type_map.insert("ARRAY".to_string(), Type { name: "ARRAY".into(), size: 2, fields: vec![], base_type: 65, flags: 0 });
    type_map.insert("ST_Status".to_string(), status);
    // Inserting a name again replaces its type in place.
    type_map.insert("ARRAY".to_string(), array);
    assert_eq!(type_map.len(), 2);
    assert_eq!(type_map.get("ARRAY").map(|t| t.size), Some(8));
    assert!(type_map.get("ST_Missing").is_none());
    let symbols = vec![
        Symbol { name: "MAIN.status".into(), ix_group: 0, ix_offset: 0, typ: "ST_Status".into(), size: 6, base_type: 65, flags: 0 },
        Symbol { name: "MAIN.values".into(), ix_group: 0, ix_offset: 0, typ: "ARRAY".into(), size: 8, base_type: 65, flags: 0 },
        Symbol { name: "MAIN.gone".into(), ix_group: 0, ix_offset: 0, typ: "NOPE".into(), size: 3, base_type: 65, flags: 0 },
    ];
    let t = dynamic_type_tree(symbols.clone(), &type_map, "main.STATUS");
    assert_eq!(
        t,
        SymbolTypeTree::Struct(
            vec![
                ("count".to_string(), (SymbolTypeTree::Uint, Some(0))),
                ("inner".to_string(), (SymbolTypeTree::Unknown(4), Some(2))),
            ],
            6
        )
    );
    assert_eq!(
        dynamic_type_tree(symbols.clone(), &type_map, "MAIN.values"),
        SymbolTypeTree::Array(Box::new(SymbolTypeTree::Usint), 8)
    );
    assert_eq!(dynamic_type_tree(symbols.clone(), &type_map, "MAIN.gone"), SymbolTypeTree::Unknown(3));
    assert_eq!(dynamic_type_tree(symbols.clone(), &type_map, "MAIN.other"), SymbolTypeTree::Missing);
    assert_eq!(
        SymbolTypeTree::from_symbol(&symbols[2], &type_map),
        Err(SymbolTypeTreeError::MissingSymbolTypeInfo("NOPE".into()))
    );
}

#[test]
fn handle_bookkeeping() {
    let mut cache = HandleCache::new();
    assert!(cache.get("a").is_none());
    let mut client = PlcClient::new((), AmsAddr::new(AmsNetId::local(), 851));
    assert!(client.cached_symbol_handle("MAIN.x").is_none());
    let h = client.remember_symbol_handle("MAIN.x".to_string(), 17);
    assert_eq!(h.as_u32(), 17);
    assert_eq!(client.cached_symbol_handle("MAIN.x").unwrap().as_u32(), 17);
    client.remember_symbol_handle("MAIN.x".to_string(), 18);
    assert_eq!(client.cached_symbol_handle("MAIN.x").unwrap().as_u32(), 18);
    assert!(client.cached_symbol_handle("MAIN.y").is_none());
    client.record_notification(3);
    client.record_notification(4);
    assert_eq!(client.unsubscribe_all(), vec![3, 4]);
    assert_eq!(client.unsubscribe_all(), Vec::<u32>::new());
    assert!(PlcClient::<()>::is_run_mode(AdsState::Run));
    assert!(!PlcClient::<()>::is_run_mode(AdsState::Stop));
    assert_eq!(PlcClient::<()>::run_mode_request(AdsState::Stop, 9), Some((AdsState::Run, 9)));
    assert_eq!(PlcClient::<()>::run_mode_request(AdsState::Run, 9), None);
    let attrs = subscription_attributes(12);
    assert_eq!(attrs.length, 12);
    assert_eq!(attrs.trans_mode, TransmissionMode::ServerOnChange);
    assert_eq!((attrs.max_delay_ms, attrs.cycle_time_ms), (0, 10));
    assert_eq!(cache.insert("a".to_string(), 5).as_u32(), 5);
    assert_eq!(cache.get("a").unwrap().as_u32(), 5);
    cache.clear();
    assert!(cache.get("a").is_none());
}

#[test]
fn connection_decisions() {
    assert_eq!(after_connect(true, false), RunModeStep::Ready);
    assert_eq!(after_connect(false, true), RunModeStep::SetRunMode);
    assert_eq!(
        after_connect(false, false),
        RunModeStep::Fail(Error::Other("PLC not in run mode, stopping connection."))
    );
    let mut c: AdsConnection<u8> = AdsConnection::Disconnected;
    assert!(c.needs_connect());
    assert_eq!(require_client(&c).unwrap_err(), Error::Disconnected);
    c.connected(7);
    assert!(c.is_connected());
    c.connected(8);
    assert_eq!(c.client().map(|a| *a), Some(7));
    assert_eq!(require_client(&c).map(|a| *a), Ok(7));
    let old: Option<Arc<u8>> = c.disconnect();
    assert_eq!(old.map(|a| *a), Some(7));
    assert!(!c.is_connected());
    let b = AdsBuilder::new(AmsAddr::new(AmsNetId::local(), 851)).timeouts(Timeouts::none()).build();
    assert_eq!(b.router, ([127, 0, 0, 1], 48898));
    assert!(!b.set_to_run_mode);
}

#[test]
fn sample_trees_from_notifications() {
    let tree = SymbolTypeTree::Struct(
        vec![
            ("flag".to_string(), (SymbolTypeTree::Bool, Some(0))),
            ("n".to_string(), (SymbolTypeTree::Uint, Some(0))),
        ],
        2,
    );
    let samples = vec![
        Sample { handle: 1, timestamp: 0, data: vec![0x01, 0x02] },
        Sample { handle: 2, timestamp: 0, data: vec![0x05] },
        Sample { handle: 1, timestamp: 0, data: vec![0x00] },
    ];
    let trees = sample_trees(&samples, 1, &tree);
    assert_eq!(trees.len(), 2);
    // Every leaf reads from the start of the sample; a BOOL needs exactly one byte.
    assert_eq!(
        trees[0],
        SampleTree::Struct(vec![
            ("flag".to_string(), SampleTree::Malformed),
            ("n".to_string(), SampleTree::Uint(0x0201)),
        ])
    );
    assert_eq!(
        trees[1],
        SampleTree::Struct(vec![
            ("flag".to_string(), SampleTree::Bool(true)),
            ("n".to_string(), SampleTree::Malformed),
        ])
    );
    let real80 = SymbolTypeTree::Real80;
    // 1.0 in the 80-bit format: fraction 0x8000000000000000, exponent 16383.
    let one = vec![0, 0, 0, 0, 0, 0, 0, 0x80, 0xff, 0x3f];
    let t = SampleTree::from_type_tree(&real80, &one, 0);
    assert_eq!(t, SampleTree::Lreal(1.0f64.to_bits()));
}

#[test]
fn ads_client_handles() {
    let mut c = openstar_ads::client::AdsClient::new(5u8);
    assert_eq!(*c.core_client(), 5);
    assert!(c.cached_symbol_handle("x").is_none());
    assert_eq!(c.remember_symbol_handle("x".to_string(), 9).as_u32(), 9);
    assert_eq!(c.cached_symbol_handle("x").unwrap().as_u32(), 9);
}

#[test]
fn conversion_traits_follow_the_named_constructors() {
    assert_eq!(AdsState::try_from(19u16), Ok(AdsState::Exception));
    assert_eq!(AdsState::try_from(99u16), Err("invalid state constant"));
    assert_eq!(SymbolTypeTree::from((33u32, 1usize)), SymbolTypeTree::Bool);
    assert_eq!(SymbolTypeTree::from((30u32, 81usize)), SymbolTypeTree::String(81));
    assert_eq!(SymbolTypeTree::from((77u32, 6usize)), SymbolTypeTree::Unknown(6));
}

use openstar_ads::data_types::string16::{AdsString16, AdsString16FromStringError, PlcString16};
use openstar_ads::data_types::PlcDataType;

fn plc_roundtrip(input_string: &str) {
    let input_string = String::from(input_string);
    let plc_string = PlcString16::try_from(input_string.clone())
        .expect("Unexpected: could not get plc string from valid string");
    let output_string: String = plc_string.into();
    assert_eq!(input_string, output_string);
}

fn ads_roundtrip(input_string: &str) {
    let input_string = String::from(input_string);
    let ads_string = AdsString16::try_from(input_string.clone())
        .expect("Unexpected: could not get plc string from valid string");
    let output_string: String = ads_string.into();
    assert_eq!(input_string, output_string);
}

#[test]
fn string16_convert_16_character_string() {
    plc_roundtrip("Status: Healthy!");
    ads_roundtrip("Status: Healthy!");
}

#[test]
fn string16_convert_15_character_string() {
    plc_roundtrip("Status: Healthy");
    ads_roundtrip("Status: Healthy");
}

#[test]
fn string16_convert_17_character_string() {
    let input_string = String::from("Status: Healthy!!");
    let plc_string_result = PlcString16::try_from(input_string.clone());
    assert!(plc_string_result.is_err());
    let ads_string_result = AdsString16::try_from(input_string.clone());
    assert!(ads_string_result.is_err());
}

#[test]
fn string16_convert_empty_string() {
    plc_roundtrip("");
    ads_roundtrip("");
}

#[test]
fn string16_convert_string_with_internal_null_characters() {
    plc_roundtrip("Status:\0\0Healthy");
    ads_roundtrip("Status:\0\0Healthy");
}

#[test]
fn string16_too_long_error_variant() {
    let r = AdsString16::from_string(String::from("0123456789abcdefg"));
    assert_eq!(r, Err(AdsString16FromStringError::LongerThan16Bytes));
    // 16 bytes of UTF-8 that are fewer than 16 characters still fit.
    let r = PlcString16::from_string(String::from("ééééééééx"));
    assert!(r.is_err());
    let r = PlcString16::from_string(String::from("éééééééé"));
    assert!(r.is_ok());
}

#[test]
fn string16_layout_and_terminator() {
    let s = PlcString16::from_string(String::from("AB")).unwrap();
    let bytes = s.as_bytes();
    assert_eq!(bytes.len(), 17);
    assert_eq!(&bytes[..3], &[b'A', b'B', 0]);
    assert!(s.check_terminator().is_ok());
    let mut raw = bytes.clone();
    raw[16] = 7;
    let t = PlcString16::from_bytes(&raw).unwrap();
    let e = t.check_terminator().unwrap_err();
    assert_eq!(e.null_terminator(), 7);
    assert!(PlcString16::from_bytes(&raw[..16]).is_none());
    assert_eq!(PlcString16::size(), 17);
}

#[test]
fn string16_latin1_decoding() {
    // Bytes above 127 read as Latin-1 characters; trailing NULs are dropped.
    let mut raw = vec![0u8; 17];
    raw[0] = 0xe9;
    raw[1] = b'!';
    let s = AdsString16::from_bytes(&raw).unwrap();
    assert_eq!(s.to_string(), "é!");
}

#[test]
fn string16_error_messages() {
    let mut raw = PlcString16::from_string(String::from("AB")).unwrap().as_bytes();
    raw[16] = 123;
    let e = PlcString16::from_bytes(&raw).unwrap().check_terminator().unwrap_err();
    assert_eq!(e.message(), "Null terminator is 123 not 0.");
    raw[16] = 7;
    let e = AdsString16::from_bytes(&raw).unwrap().check_terminator().unwrap_err();
    assert_eq!(e.message(), "Null terminator is 7 not 0.");
    let long = AdsString16::try_from(String::from("Status: Healthy!!")).unwrap_err();
    assert_eq!(long.message(), "Could not convert from String. Longer than 16 bytes.");
}

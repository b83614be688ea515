use nmea0183::common::{parse_decimal_i16, parse_i16, INT_FIELD_ERROR};
use nmea0183::fields::Fields;
use nmea0183::obs::Dim3;

fn collect(mut fields: Fields) -> Vec<String> {
    let mut out = Vec::new();
    while let Some(f) = fields.next() {
        out.push(f.to_string());
    }
    out
}

#[test]
fn dim3_parse_reads_three_fields() {
    let mut fields = Fields::new("0,1,2,10", ',');
    assert_eq!(Dim3::parse(&mut fields), Ok(Some(Dim3 { x: 0, y: 1, z: 2 })));
    assert_eq!(fields.next(), Some("10"));
    assert_eq!(fields.next(), None);
}

#[test]
fn dim3_parse_obs_sentence_body() {
    let mut fields = Fields::new("QUOBS,125655.00,999.9,25.0,0,1,2,10,20,30,100,200,300", ',');
    for _ in 0..4 {
        assert!(fields.next().is_some());
    }
    assert_eq!(Dim3::parse(&mut fields), Ok(Some(Dim3 { x: 0, y: 1, z: 2 })));
    assert_eq!(Dim3::parse(&mut fields), Ok(Some(Dim3 { x: 10, y: 20, z: 30 })));
    assert_eq!(Dim3::parse(&mut fields), Ok(Some(Dim3 { x: 100, y: 200, z: 300 })));
    assert_eq!(fields.next(), None);
}

#[test]
fn dim3_parse_signs_and_limits() {
    let mut fields = Fields::new("-32768,+5,32767", ',');
    assert_eq!(Dim3::parse(&mut fields), Ok(Some(Dim3 { x: -32768, y: 5, z: 32767 })));
}

#[test]
fn dim3_parse_empty_field_is_none() {
    let mut fields = Fields::new("1,,3,4", ',');
    assert_eq!(Dim3::parse(&mut fields), Ok(None));
    assert_eq!(fields.next(), Some("4"));
}

#[test]
fn dim3_parse_missing_fields_is_none() {
    let mut fields = Fields::new("1,2", ',');
    assert_eq!(Dim3::parse(&mut fields), Ok(None));
    assert_eq!(fields.next(), None);
}

#[test]
fn dim3_parse_malformed_field_is_error() {
    let mut fields = Fields::new("1,x,3,4", ',');
    assert_eq!(Dim3::parse(&mut fields), Err("Wrong signed int field format."));
    assert_eq!(fields.next(), Some("3"));
}

#[test]
fn dim3_parse_error_before_empty_field() {
    let mut fields = Fields::new(",99999,3", ',');
    assert_eq!(Dim3::parse(&mut fields), Err(INT_FIELD_ERROR));
    assert_eq!(fields.next(), Some("3"));
}

#[test]
fn parse_i16_missing_and_empty() {
    assert_eq!(parse_i16(None), Ok(None));
    assert_eq!(parse_i16(Some("")), Ok(None));
    assert_eq!(parse_i16(Some("-12")), Ok(Some(-12)));
    assert_eq!(parse_i16(Some("1.5")), Err(INT_FIELD_ERROR));
}

#[test]
fn parse_decimal_i16_grammar() {
    assert_eq!(parse_decimal_i16("0"), Some(0));
    assert_eq!(parse_decimal_i16("007"), Some(7));
    assert_eq!(parse_decimal_i16("+32767"), Some(32767));
    assert_eq!(parse_decimal_i16("-32768"), Some(-32768));
    assert_eq!(parse_decimal_i16("32768"), None);
    assert_eq!(parse_decimal_i16("-32769"), None);
    assert_eq!(parse_decimal_i16("123456789"), None);
    assert_eq!(parse_decimal_i16("-"), None);
    assert_eq!(parse_decimal_i16("+"), None);
    assert_eq!(parse_decimal_i16(""), None);
    assert_eq!(parse_decimal_i16(" 1"), None);
    assert_eq!(parse_decimal_i16("1-"), None);
    assert_eq!(parse_decimal_i16("--1"), None);
}

#[test]
fn parse_decimal_i16_agrees_with_std() {
    for text in ["0", "-0", "+0", "12", "-12", "32767", "32768", "-32768", "-32769", "", "+", "-", "a", "1a", "+-1", "99999999999"] {
        assert_eq!(parse_decimal_i16(text), text.parse::<i16>().ok(), "{}", text);
    }
    for v in [i16::MIN, -1000, -1, 0, 1, 999, i16::MAX] {
        assert_eq!(parse_decimal_i16(&v.to_string()), Some(v));
    }
}

#[test]
fn fields_split_like_str_split() {
    for text in ["a,,b,", "", ",", "abc", "1,2,3", "é,ü"] {
        let expected: Vec<String> = text.split(',').map(|s| s.to_string()).collect();
        assert_eq!(collect(Fields::new(text, ',')), expected);
    }
}

#[test]
fn fields_keep_answering_none() {
    let mut fields = Fields::new("a", ',');
    assert_eq!(fields.next(), Some("a"));
    assert_eq!(fields.next(), None);
    assert_eq!(fields.next(), None);
}

#[test]
fn fields_join_back_to_text() {
    let text = "GPGGA,145659.00,,N,*";
    assert_eq!(collect(Fields::new(text, ',')).join(","), text);
}

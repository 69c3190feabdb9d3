use webroute::json::enc_json_arr;
use webroute::json::enc_json_obj;
use webroute::json::enc_json_str;
use webroute::json::parse_json_arr;
use webroute::json::parse_json_obj;
use webroute::error::ExtractError;
use webroute::num::fmt_u64;
use webroute::num::parse_u64;
use webroute::num::parse_u32;

fn b(s: &str) -> Vec<u8> {
    s.as_bytes().to_vec()
}

#[test]
fn numerals_format() {
    assert_eq!(fmt_u64(0), b("0"));
    assert_eq!(fmt_u64(42), b("42"));
    assert_eq!(fmt_u64(u64::MAX), b("18446744073709551615"));
}

#[test]
fn numerals_parse() {
    assert_eq!(parse_u64(b("0").as_slice()), Some(0));
    assert_eq!(parse_u64(b("18446744073709551615").as_slice()), Some(u64::MAX));
    assert_eq!(parse_u64(b("18446744073709551616").as_slice()), None);
    assert_eq!(parse_u64(b("").as_slice()), None);
    assert_eq!(parse_u64(b("1a").as_slice()), None);
    assert_eq!(parse_u64(b("-1").as_slice()), None);
    assert_eq!(parse_u32(b("4294967295").as_slice()), Some(u32::MAX));
    assert_eq!(parse_u32(b("4294967296").as_slice()), None);
}

#[test]
fn json_string_escaping() {
    assert_eq!(enc_json_str(b("a\"b\\c").as_slice()), Some(b("\"a\\\"b\\\\c\"")));
    // control bytes cannot stand in this subset's strings
    assert_eq!(enc_json_str(b("a\nb").as_slice()), None);
}

#[test]
fn json_object_round_trip() {
    let pairs = vec![(b("user_name"), b("a\"b")), (b("pwd"), b("x\\y"))];
    let enc = enc_json_obj(&pairs).unwrap();
    let back = parse_json_obj(enc.as_slice()).unwrap();
    assert_eq!(back, pairs);
    let empty: Vec<(Vec<u8>, Vec<u8>)> = Vec::new();
    let enc = enc_json_obj(&empty).unwrap();
    assert_eq!(enc, b("{}"));
    assert_eq!(parse_json_obj(enc.as_slice()).unwrap(), empty);
}

#[test]
fn json_object_rejects_other_shapes() {
    assert_eq!(parse_json_obj(b("[1,2]").as_slice()), Err(ExtractError::MalformedJson));
    assert_eq!(parse_json_obj(b("{\"a\":1}").as_slice()), Err(ExtractError::MalformedJson));
    assert_eq!(parse_json_obj(b("{\"a\":\"b\"").as_slice()), Err(ExtractError::MalformedJson));
    assert_eq!(parse_json_obj(b("{} trailing").as_slice()), Err(ExtractError::MalformedJson));
    assert_eq!(parse_json_obj(b("").as_slice()), Err(ExtractError::MalformedJson));
}

#[test]
fn json_array_round_trip() {
    let xs: Vec<u64> = vec![1, 2, 3];
    let enc = enc_json_arr(&xs);
    assert_eq!(enc, b("[1,2,3]"));
    assert_eq!(parse_json_arr(enc.as_slice()).unwrap(), xs);
    let empty: Vec<u64> = Vec::new();
    assert_eq!(parse_json_arr(enc_json_arr(&empty).as_slice()).unwrap(), empty);
    assert_eq!(parse_json_arr(b(" [ 1 , 2 ] ").as_slice()).unwrap(), vec![1, 2]);
}

#[test]
fn json_array_rejects_other_shapes() {
    assert_eq!(parse_json_arr(b("[1,]").as_slice()), Err(ExtractError::MalformedJson));
    assert_eq!(parse_json_arr(b("[a]").as_slice()), Err(ExtractError::MalformedJson));
    assert_eq!(parse_json_arr(b("{}").as_slice()), Err(ExtractError::MalformedJson));
    assert_eq!(
        parse_json_arr(b("[18446744073709551616]").as_slice()),
        Err(ExtractError::MalformedJson)
    );
}

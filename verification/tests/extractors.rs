use webroute::error::ExtractError;
use webroute::error::status_of;
use webroute::extract::extract_json_ids;
use webroute::extract::extract_json_user;
use webroute::extract::extract_param_u32;
use webroute::query::extract_pagination;
use webroute::query::extract_query_u32;
use webroute::query::lookup;
use webroute::query::parse_pairs;
use webroute::query::pct_decode;
use webroute::request::MAX_BODY_LEN;
use webroute::request::Method;
use webroute::request::Request;

fn b(s: &str) -> Vec<u8> {
    s.as_bytes().to_vec()
}

fn post(body: Vec<u8>) -> Request {
    Request::new(Method::Post, b("/x"), Vec::new(), body)
}

#[test]
fn pagination_both_absent() {
    let p = extract_pagination(b("").as_slice()).unwrap();
    assert_eq!(p.offset, None);
    assert_eq!(p.limit, None);
}

#[test]
fn pagination_offset_only() {
    let p = extract_pagination(b("offset=5").as_slice()).unwrap();
    assert_eq!(p.offset, Some(5));
    assert_eq!(p.limit, None);
}

#[test]
fn pagination_extra_key_ignored() {
    let p = extract_pagination(b("offset=5&limit=10&extra=1").as_slice()).unwrap();
    assert_eq!(p.offset, Some(5));
    assert_eq!(p.limit, Some(10));
}

#[test]
fn pagination_bad_number_fails() {
    let e = extract_pagination(b("offset=abc").as_slice());
    assert_eq!(e, Err(ExtractError::ParamParseError));
}

#[test]
fn body_consumed_once() {
    let mut req = post(b("{\"user_name\":\"a\",\"pwd\":\"b\"}"));
    assert!(extract_json_user(&mut req).is_ok());
    // a second, independent body extraction cannot succeed
    let e = extract_json_ids(&mut req);
    assert_eq!(e, Err(ExtractError::ContentAlreadyConsumed));
    assert_eq!(status_of(ExtractError::ContentAlreadyConsumed), 500);
}

#[test]
fn take_body_twice_fails() {
    let mut req = post(b("abc"));
    assert_eq!(req.take_body(), Ok(b("abc")));
    assert_eq!(req.take_body(), Err(ExtractError::ContentAlreadyConsumed));
}

#[test]
fn oversized_body_fails_read() {
    let mut req = post(vec![b'a'; MAX_BODY_LEN + 1]);
    assert_eq!(req.take_body(), Err(ExtractError::BodyReadError));
    assert_eq!(status_of(ExtractError::BodyReadError), 400);
}

#[test]
fn percent_decoding() {
    assert_eq!(pct_decode(b("a%20b+c").as_slice()), b("a b c"));
    assert_eq!(pct_decode(b("%41%6al%2F").as_slice()), b("Ajl/"));
    // stray escapes pass through unchanged
    assert_eq!(pct_decode(b("100%").as_slice()), b("100%"));
    assert_eq!(pct_decode(b("%zz").as_slice()), b("%zz"));
}

#[test]
fn pair_parsing() {
    let ps = parse_pairs(b("a=1&b=2&c").as_slice());
    assert_eq!(ps.len(), 3);
    assert_eq!(lookup(&ps, b("a").as_slice()), Some(b("1")));
    assert_eq!(lookup(&ps, b("b").as_slice()), Some(b("2")));
    // a part without `=` is a key with an empty value
    assert_eq!(lookup(&ps, b("c").as_slice()), Some(b("")));
    assert_eq!(lookup(&ps, b("d").as_slice()), None);
    // the first occurrence of a repeated key wins
    let ps = parse_pairs(b("k=1&k=2").as_slice());
    assert_eq!(lookup(&ps, b("k").as_slice()), Some(b("1")));
}

#[test]
fn query_scalar_rules() {
    assert_eq!(extract_query_u32(b("id=9").as_slice()), Ok(9));
    assert_eq!(extract_query_u32(b("5").as_slice()), Ok(5));
    assert_eq!(extract_query_u32(b("").as_slice()), Err(ExtractError::MissingQueryField));
    assert_eq!(extract_query_u32(b("id=x").as_slice()), Err(ExtractError::ParamParseError));
}

#[test]
fn param_extraction() {
    let params = vec![(b("id"), b("77"))];
    assert_eq!(extract_param_u32(&params, b("id").as_slice()), Ok(77));
    assert_eq!(
        extract_param_u32(&params, b("other").as_slice()),
        Err(ExtractError::MissingParam)
    );
    let params = vec![(b("id"), b("9x"))];
    assert_eq!(
        extract_param_u32(&params, b("id").as_slice()),
        Err(ExtractError::ParamParseError)
    );
}

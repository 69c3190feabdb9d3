use webroute::error::RegisterError;
use webroute::handlers::DemoHandler;
use webroute::request::ContentType;
use webroute::request::Method;
use webroute::request::Request;
use webroute::request::Response;
use webroute::router::Router;

fn b(s: &str) -> Vec<u8> {
    s.as_bytes().to_vec()
}

fn demo_router() -> Router<DemoHandler> {
    let mut r: Router<DemoHandler> = Router::new();
    r.register(Method::Post, "/user/login", DemoHandler::Login).unwrap();
    r.register(Method::Get, "/user", DemoHandler::Info).unwrap();
    r.register(Method::Get, "/user_list", DemoHandler::List).unwrap();
    r.register(Method::Get, "/user_list_id", DemoHandler::ListId).unwrap();
    r.register(Method::Put, "/user", DemoHandler::Update).unwrap();
    r.register(Method::Get, "/user/:id", DemoHandler::InfoPath).unwrap();
    r.register(Method::Delete, "/user/:id", DemoHandler::Del).unwrap();
    r.register(Method::Delete, "/user", DemoHandler::DelMany).unwrap();
    r
}

fn get(r: &Router<DemoHandler>, path: &str, query: &str) -> Response {
    r.dispatch(Request::new(Method::Get, b(path), b(query), Vec::new()))
}

#[test]
fn literal_route_dispatches() {
    let r = demo_router();
    let resp = get(&r, "/user_list", "offset=5");
    assert_eq!(resp.status, 200);
    assert_eq!(resp.content_type, ContentType::TextPlain);
    assert_eq!(resp.body, b("offset: Some(5), limit: None"));
}

#[test]
fn unknown_path_is_not_found() {
    let r = demo_router();
    let resp = get(&r, "/nothing/here", "");
    assert_eq!(resp.status, 404);
    assert_eq!(resp.body, b("route not found"));
    // same segments, different count
    let resp = get(&r, "/user_list/extra", "");
    assert_eq!(resp.status, 404);
    let resp = get(&r, "/user/1/2", "");
    assert_eq!(resp.status, 404);
}

#[test]
fn unknown_method_is_not_found() {
    let r = demo_router();
    let resp = r.dispatch(Request::new(Method::Post, b("/user_list"), Vec::new(), Vec::new()));
    assert_eq!(resp.status, 404);
}

#[test]
fn numeric_capture_parses() {
    let r = demo_router();
    let resp = get(&r, "/user/42", "");
    assert_eq!(resp.status, 200);
    assert_eq!(resp.body, b("id: 42"));
}

#[test]
fn numeric_capture_rejects_non_numeral() {
    let r = demo_router();
    let resp = get(&r, "/user/abc", "");
    assert_eq!(resp.status, 400);
    assert_eq!(resp.body, b("malformed parameter"));
    // out of range for a u32 target
    let resp = get(&r, "/user/4294967296", "");
    assert_eq!(resp.status, 400);
}

#[test]
fn literal_beats_capture() {
    let mut r: Router<DemoHandler> = Router::new();
    // registration order must not matter: the capture comes first here
    r.register(Method::Get, "/user/:id", DemoHandler::InfoPath).unwrap();
    r.register(Method::Get, "/user/list", DemoHandler::List).unwrap();
    let resp = get(&r, "/user/list", "");
    assert_eq!(resp.body, b("offset: None, limit: None"));
    let resp = get(&r, "/user/7", "");
    assert_eq!(resp.body, b("id: 7"));
}

#[test]
fn duplicate_shape_is_rejected() {
    let mut r: Router<DemoHandler> = Router::new();
    r.register(Method::Get, "/user/:id", DemoHandler::InfoPath).unwrap();
    // the capture's name does not change the shape
    let e = r.register(Method::Get, "/user/:name", DemoHandler::Del);
    assert_eq!(e, Err(RegisterError::DuplicateRoute));
    let e = r.register(Method::Get, "/user/:id", DemoHandler::InfoPath);
    assert_eq!(e, Err(RegisterError::DuplicateRoute));
    // another method is free
    r.register(Method::Delete, "/user/:id", DemoHandler::Del).unwrap();
}

#[test]
fn dispatch_is_idempotent() {
    let r = demo_router();
    let q1 = Request::new(Method::Get, b("/user/9"), b("offset=1"), Vec::new());
    let q2 = Request::new(Method::Get, b("/user/9"), b("offset=1"), Vec::new());
    let r1 = r.dispatch(q1);
    let r2 = r.dispatch(q2);
    assert_eq!(r1.status, r2.status);
    assert_eq!(r1.content_type, r2.content_type);
    assert_eq!(r1.body, r2.body);
}

#[test]
fn json_login_round_trip() {
    let r = demo_router();
    let req = Request::new(
        Method::Post,
        b("/user/login"),
        Vec::new(),
        b("{\"user_name\":\"a\",\"pwd\":\"b\"}"),
    );
    let resp = r.dispatch(req);
    assert_eq!(resp.status, 200);
    assert_eq!(resp.content_type, ContentType::AppJson);
    assert_eq!(resp.body, b("\"user_name: a,pwd: b\""));
}

#[test]
fn json_login_tolerates_whitespace() {
    let r = demo_router();
    let req = Request::new(
        Method::Post,
        b("/user/login"),
        Vec::new(),
        b(" { \"user_name\" : \"a\" , \"pwd\" : \"b\" } "),
    );
    let resp = r.dispatch(req);
    assert_eq!(resp.status, 200);
    assert_eq!(resp.body, b("\"user_name: a,pwd: b\""));
}

#[test]
fn malformed_json_is_bad_request() {
    let r = demo_router();
    let req = Request::new(Method::Post, b("/user/login"), Vec::new(), b("{\"user_name\":"));
    let resp = r.dispatch(req);
    assert_eq!(resp.status, 400);
    assert_eq!(resp.body, b("malformed json body"));
    // a field of the wrong shape is a schema mismatch
    let req = Request::new(Method::Post, b("/user/login"), Vec::new(), b("{\"user_name\":\"a\"}"));
    let resp = r.dispatch(req);
    assert_eq!(resp.status, 400);
}

#[test]
fn form_update_echoes_json() {
    let r = demo_router();
    let req = Request::new(Method::Put, b("/user"), Vec::new(), b("user_name=x&pwd=y"));
    let resp = r.dispatch(req);
    assert_eq!(resp.status, 200);
    assert_eq!(resp.content_type, ContentType::AppJson);
    assert_eq!(resp.body, b("{\"user_name\":\"x\",\"pwd\":\"y\"}"));
}

#[test]
fn form_update_decodes_percent_escapes() {
    let r = demo_router();
    let req = Request::new(Method::Put, b("/user"), Vec::new(), b("user_name=a+b%21&pwd=y"));
    let resp = r.dispatch(req);
    assert_eq!(resp.status, 200);
    assert_eq!(resp.body, b("{\"user_name\":\"a b!\",\"pwd\":\"y\"}"));
}

#[test]
fn form_missing_field_is_malformed() {
    let r = demo_router();
    let req = Request::new(Method::Put, b("/user"), Vec::new(), b("user_name=x"));
    let resp = r.dispatch(req);
    assert_eq!(resp.status, 400);
    assert_eq!(resp.body, b("malformed form body"));
}

#[test]
fn control_byte_fails_response_build() {
    let r = demo_router();
    // a form value may carry a control byte; the JSON echo refuses it
    let req = Request::new(Method::Put, b("/user"), Vec::new(), b("user_name=a%00&pwd=y"));
    let resp = r.dispatch(req);
    assert_eq!(resp.status, 500);
    assert_eq!(resp.body, b("could not build response"));
}

#[test]
fn query_scalar_extracts() {
    let r = demo_router();
    let resp = get(&r, "/user", "id=5");
    assert_eq!(resp.status, 200);
    assert_eq!(resp.body, b("id: 5"));
    // a bare value works as the scalar too
    let resp = get(&r, "/user", "7");
    assert_eq!(resp.body, b("id: 7"));
}

#[test]
fn query_scalar_missing_or_bad() {
    let r = demo_router();
    let resp = get(&r, "/user", "");
    assert_eq!(resp.status, 400);
    assert_eq!(resp.body, b("missing query field"));
    let resp = get(&r, "/user", "id=abc");
    assert_eq!(resp.status, 400);
    assert_eq!(resp.body, b("malformed parameter"));
}

#[test]
fn missing_capture_is_missing_param() {
    let r = demo_router();
    // the route is registered without a capture, but its handler reads one
    let resp = get(&r, "/user_list_id", "offset=1");
    assert_eq!(resp.status, 400);
    assert_eq!(resp.body, b("missing path parameter"));
}

#[test]
fn delete_single_and_many() {
    let r = demo_router();
    let resp = r.dispatch(Request::new(Method::Delete, b("/user/3"), Vec::new(), Vec::new()));
    assert_eq!(resp.status, 200);
    assert_eq!(resp.body, b("\"id: 3\""));
    let resp = r.dispatch(Request::new(Method::Delete, b("/user"), Vec::new(), b("[1, 2, 3]")));
    assert_eq!(resp.status, 200);
    assert_eq!(resp.body, b("\"ids: [1, 2, 3]\""));
    let resp = r.dispatch(Request::new(Method::Delete, b("/user"), Vec::new(), b("[]")));
    assert_eq!(resp.body, b("\"ids: []\""));
}

#[test]
fn raw_style_matches_structured_style() {
    let mut structured: Router<DemoHandler> = Router::new();
    structured.register(Method::Post, "/user/login", DemoHandler::Login).unwrap();
    structured.register(Method::Get, "/user", DemoHandler::Info).unwrap();
    structured.register(Method::Get, "/user_list", DemoHandler::List).unwrap();
    structured.register(Method::Put, "/user", DemoHandler::Update).unwrap();
    structured.register(Method::Get, "/user/:id", DemoHandler::InfoPath).unwrap();
    let mut raw: Router<DemoHandler> = Router::new();
    raw.register(Method::Post, "/user/login", DemoHandler::LoginRaw).unwrap();
    raw.register(Method::Get, "/user", DemoHandler::InfoRaw).unwrap();
    raw.register(Method::Get, "/user_list", DemoHandler::ListRaw).unwrap();
    raw.register(Method::Put, "/user", DemoHandler::UpdateRaw).unwrap();
    raw.register(Method::Get, "/user/:id", DemoHandler::InfoPathRaw).unwrap();
    let cases: Vec<(Method, &str, &str, &str)> = vec![
        (Method::Post, "/user/login", "", "{\"user_name\":\"a\",\"pwd\":\"b\"}"),
        (Method::Post, "/user/login", "", "not json"),
        (Method::Get, "/user", "id=12", ""),
        (Method::Get, "/user", "", ""),
        (Method::Get, "/user_list", "offset=5&limit=10&extra=1", ""),
        (Method::Put, "/user", "", "user_name=x&pwd=y"),
        (Method::Put, "/user", "", "pwd=y"),
        (Method::Get, "/user/31", "", ""),
        (Method::Get, "/user/no", "", ""),
    ];
    for (m, path, query, body) in cases {
        let r1 = structured.dispatch(Request::new(m, b(path), b(query), b(body)));
        let r2 = raw.dispatch(Request::new(m, b(path), b(query), b(body)));
        assert_eq!(r1.status, r2.status);
        assert_eq!(r1.content_type, r2.content_type);
        assert_eq!(r1.body, r2.body);
    }
}

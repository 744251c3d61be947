use http::header::{HeaderMap, HeaderName, HeaderValue};
use sveltum::dynamic::{
    create_dynamic_request, create_dynamic_response, get_request_origin, get_request_url,
    headers_as_text, HttpResponse, NotText, ResponseError,
};
use sveltum::request::{has_body, reads_metadata_only, RequestParts, ServeSvelteConfig};
use sveltum::request_uri::RequestUri;
use sveltum::response::{response_with_status, ResponseBody};
use sveltum::runtime::InitializedResponse;
use sveltum::service::{body_read, call, handled, searched, CallStep};
use sveltum::static_files::{Place, ServeSvelteState, StaticStep};

fn parts(method: &str, headers: &[(&str, &[u8])]) -> RequestParts {
    let mut map = HeaderMap::new();
    for (name, value) in headers {
        map.append(
            name.parse::<HeaderName>().unwrap(),
            HeaderValue::from_bytes(value).unwrap(),
        );
    }
    let uri = RequestUri {
        scheme: None,
        authority: None,
        path: "/page".to_string(),
        query: Some("a=b".to_string()),
    };
    RequestParts { method: method.to_string(), uri, headers: map }
}

fn config(origin: Option<&str>) -> ServeSvelteConfig {
    ServeSvelteConfig { origin: origin.map(str::to_string), ..Default::default() }
}

fn state() -> ServeSvelteState {
    ServeSvelteState::new(InitializedResponse::new(vec![], "_app".to_string()))
}

fn answer(status: u16, headers: &[(&str, &str)]) -> HttpResponse {
    HttpResponse {
        status,
        headers: headers
            .iter()
            .map(|(name, value)| (name.to_string(), value.to_string()))
            .collect(),
        body: b"hello".to_vec(),
    }
}

#[test]
fn the_origin_of_a_request() {
    let request = parts("GET", &[("origin", b"http://example.com"), ("origin", b"http://other")]);
    assert_eq!(get_request_origin(&request.headers), Some("http://example.com"));
    assert_eq!(get_request_origin(&parts("GET", &[]).headers), None);
    assert_eq!(get_request_origin(&parts("GET", &[("origin", b"\xff")]).headers), None);
}

#[test]
fn the_url_of_a_request() {
    let request = parts("GET", &[("origin", b"http://example.com")]);
    assert_eq!(
        get_request_url(&request, &config(Some("http://localhost:3000"))).as_deref(),
        Some("http://localhost:3000/page?a=b")
    );
    assert_eq!(
        get_request_url(&request, &config(None)).as_deref(),
        Some("http://example.com/page?a=b")
    );
    assert_eq!(get_request_url(&parts("GET", &[]), &config(None)), None);
}

#[test]
fn requests_for_the_app_have_all_headers() {
    let request = parts("PUT", &[("X-One", b"1"), ("x-two", b"2"), ("x-one", b"3")]);
    let created = create_dynamic_request(&request, "http://localhost/page".to_string()).unwrap();
    assert_eq!(created.url, "http://localhost/page");
    assert_eq!(created.method, "PUT");
    assert_eq!(created.body, None);
    assert_eq!(created.headers.len(), 3);
    let values = |name: &str| -> Vec<&str> {
        created
            .headers
            .iter()
            .filter(|(key, _)| key == name)
            .map(|(_, value)| value.as_str())
            .collect()
    };
    assert_eq!(values("x-one"), vec!["1", "3"]);
    assert_eq!(values("x-two"), vec!["2"]);
}

#[test]
fn headers_that_are_not_text_are_refused() {
    let request = parts("GET", &[("x-one", b"1"), ("x-two", b"\xc3\xa9")]);
    assert_eq!(
        create_dynamic_request(&request, String::new()).map(|_| ()),
        Err(NotText)
    );
    let pairs = vec![("a".to_string(), HeaderValue::from_static("b c"))];
    assert_eq!(headers_as_text(&pairs), Ok(vec![("a".to_string(), "b c".to_string())]));
}

#[test]
fn only_reading_requests_have_no_body() {
    assert!(!has_body("GET"));
    assert!(!has_body("HEAD"));
    assert!(has_body("POST"));
    assert!(has_body("get"));
    assert!(has_body("OPTIONS"));
}

#[test]
fn only_head_requests_read_metadata_only() {
    assert!(reads_metadata_only("HEAD"));
    assert!(!reads_metadata_only("GET"));
    assert!(!reads_metadata_only("head"));
    assert!(!reads_metadata_only(""));
}

#[test]
fn answers_of_the_app_are_converted() {
    let headers = [("Set-Cookie", "a=1"), ("content-type", "text/plain"), ("set-cookie", "b=2")];
    let response = create_dynamic_response(answer(201, &headers)).unwrap();
    assert_eq!(response.status, 201);
    assert_eq!(response.headers.len(), 3);
    assert_eq!(response.headers.get("content-type").unwrap(), "text/plain");
    let cookies: Vec<_> = response.headers.get_all("set-cookie").iter().collect();
    assert_eq!(cookies, vec!["a=1", "b=2"]);
    assert!(matches!(response.body, ResponseBody::Bytes(bytes) if bytes == b"hello"));
}

#[test]
fn values_of_answers_need_not_be_ascii() {
    let response = create_dynamic_response(answer(200, &[("x-name", "caf\u{e9}")])).unwrap();
    assert_eq!(response.headers.get("x-name").unwrap().as_bytes(), "caf\u{e9}".as_bytes());
}

#[test]
fn invalid_statuses_are_refused() {
    for status in [0, 99, 1000, 65535] {
        let bad = answer(status, &[("bad name", "x")]);
        assert_eq!(create_dynamic_response(bad).map(|_| ()), Err(ResponseError::InvalidStatus));
    }
    assert_eq!(create_dynamic_response(answer(100, &[])).unwrap().status, 100);
    assert_eq!(create_dynamic_response(answer(999, &[])).unwrap().status, 999);
}

#[test]
fn the_first_invalid_header_is_told() {
    let error = |headers: &[(&str, &str)]| {
        create_dynamic_response(answer(200, headers)).map(|_| ()).unwrap_err()
    };
    assert_eq!(error(&[("a", "b"), ("", "x")]), ResponseError::InvalidHeaderName);
    assert_eq!(error(&[("a b", "\n")]), ResponseError::InvalidHeaderName);
    assert_eq!(error(&[("a", "\n"), ("a b", "x")]), ResponseError::InvalidHeaderValue);
    assert_eq!(error(&[("a", "x\u{7f}")]), ResponseError::InvalidHeaderValue);
}

#[test]
fn too_many_headers_are_refused() {
    let many = |n: usize| HttpResponse {
        status: 200,
        headers: (0..n).map(|i| (format!("x-{i}"), String::new())).collect(),
        body: vec![],
    };
    assert_eq!(create_dynamic_response(many(6554)).unwrap().headers.len(), 6554);
    assert_eq!(
        create_dynamic_response(many(40000)).map(|_| ()),
        Err(ResponseError::TooManyHeaders)
    );
    let mut invalid = many(40000);
    invalid.headers.push(("a b".to_string(), String::new()));
    assert_eq!(
        create_dynamic_response(invalid).map(|_| ()),
        Err(ResponseError::InvalidHeaderName)
    );
}

#[test]
fn many_values_of_one_header_are_kept() {
    let cookies = HttpResponse {
        status: 200,
        headers: (0..50000).map(|i| ("set-cookie".to_string(), format!("a={i}"))).collect(),
        body: vec![],
    };
    let response = handled(Some(cookies));
    assert_eq!(response.status, 200);
    assert_eq!(response.headers.len(), 50000);
    assert_eq!(response.headers.keys_len(), 1);
}

#[test]
fn reading_requests_look_for_static_content() {
    for method in ["GET", "HEAD"] {
        let request = parts(method, &[("range", b"bytes=0-1")]);
        match call(&request, &config(None), &state()) {
            CallStep::Search {
                options,
                step: StaticStep::Serve { place: Place::Client, uri_path, .. },
            } => {
                assert_eq!(options.range_header.as_deref(), Some("bytes=0-1"));
                assert_eq!(uri_path, "/page");
            }
            other => panic!("{other:?}"),
        }
    }
}

#[test]
fn other_requests_go_to_the_app() {
    let request = parts("POST", &[("x-one", b"1")]);
    match call(&request, &config(Some("http://localhost")), &state()) {
        CallStep::ReadBody { request } => {
            assert_eq!(request.url, "http://localhost/page?a=b");
            assert_eq!(request.method, "POST");
            assert_eq!(request.headers, vec![("x-one".to_string(), "1".to_string())]);
            match body_read(request, Some(b"body".to_vec())) {
                CallStep::Handle { request } => {
                    assert_eq!(request.body, Some(b"body".to_vec()));
                    assert_eq!(request.url, "http://localhost/page?a=b");
                }
                other => panic!("{other:?}"),
            }
        }
        other => panic!("{other:?}"),
    }
}

#[test]
fn found_content_is_sent() {
    let request = parts("GET", &[]);
    match searched(&request, &config(None), Some(response_with_status(304))) {
        CallStep::Respond { response } => assert_eq!(response.status, 304),
        other => panic!("{other:?}"),
    }
}

#[test]
fn the_app_answers_where_there_is_no_content() {
    let request = parts("GET", &[("origin", b"http://example.com")]);
    match searched(&request, &config(None), None) {
        CallStep::Handle { request } => {
            assert_eq!(request.url, "http://example.com/page?a=b");
            assert_eq!(request.body, None);
        }
        other => panic!("{other:?}"),
    }
}

#[test]
fn requests_that_cannot_be_handed_on_are_errors() {
    let unknown_origin = parts("GET", &[]);
    let not_text = parts("POST", &[("x-one", b"\xff")]);
    let steps = vec![
        searched(&unknown_origin, &config(None), None),
        call(&not_text, &config(Some("http://localhost")), &state()),
        body_read(
            create_dynamic_request(&parts("POST", &[]), String::new()).unwrap(),
            None,
        ),
    ];
    for step in steps {
        match step {
            CallStep::Respond { response } => {
                assert_eq!(response.status, 500);
                assert!(response.headers.is_empty());
                assert!(matches!(response.body, ResponseBody::Empty));
            }
            other => panic!("{other:?}"),
        }
    }
}

#[test]
fn failures_of_the_app_are_errors() {
    assert_eq!(handled(None).status, 500);
    assert_eq!(handled(Some(answer(99, &[]))).status, 500);
    assert_eq!(handled(Some(answer(200, &[("a b", "")]))).status, 500);
    let response = handled(Some(answer(404, &[("x-one", "1")])));
    assert_eq!(response.status, 404);
    assert_eq!(response.headers.get("x-one").unwrap(), "1");
}

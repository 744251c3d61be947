use http::header::{HeaderMap, HeaderValue};
use sveltum::content_encoding::Encoding;
use sveltum::file::{FileError, FileErrorKind, FileMeta};
use sveltum::headers::LastModified;
use sveltum::path::FilePath;
use sveltum::ranges::{ByteRange, ValidateRangeError};
use sveltum::request::{FileRequestOptions, RequestParts, ServeSvelteConfig, DEFAULT_CAPACITY};
use sveltum::request_uri::RequestUri;
use sveltum::response::{
    body_from_bytes, body_from_message, empty_body, response_with_status, Response, ResponseBody,
};
use sveltum::serve::{
    build_response, directory_checked, file_attempted, file_failed, file_sought, respond_with,
    try_serve_from_path, PathStep,
};

const TIME: u64 = 784111777;

fn options(headers: &[(&'static str, &str)]) -> FileRequestOptions {
    let mut map = HeaderMap::new();
    for (name, value) in headers {
        map.append(*name, HeaderValue::from_str(value).unwrap());
    }
    let uri = RequestUri { scheme: None, authority: None, path: "/".to_string(), query: None };
    let parts = RequestParts { method: "GET".to_string(), uri, headers: map };
    FileRequestOptions::from_parts(&parts, &ServeSvelteConfig::default())
}

fn client() -> FilePath {
    FilePath { segments: vec!["client".to_string()] }
}

fn file(name: &str) -> FilePath {
    FilePath { segments: vec!["client".to_string(), name.to_string()] }
}

fn meta(len: u64) -> FileMeta {
    FileMeta { len, modified: Some(LastModified::from_unix_seconds(TIME)) }
}

fn header<'a>(response: &'a Response, name: &str) -> Option<&'a str> {
    response.headers.get(name).map(|value| value.to_str().unwrap())
}

fn done(step: PathStep) -> Response {
    match step {
        PathStep::Done { outcome: Some(response) } => response,
        other => panic!("no response: {other:?}"),
    }
}

#[test]
fn default_configuration() {
    let config = ServeSvelteConfig::default();
    assert_eq!(config.origin, None);
    assert_eq!(config.buf_chunk_size, 65536);
    assert_eq!(DEFAULT_CAPACITY, 65536);
}

#[test]
fn options_are_read_from_headers() {
    let options = options(&[
        ("accept-encoding", "gzip;q=0.2, br"),
        ("range", "bytes=0-1"),
        ("if-modified-since", "Sun, 06 Nov 1994 08:49:37 GMT"),
        ("if-unmodified-since", "nonsense"),
    ]);
    assert_eq!(options.negotiated_encodings, vec![Encoding::Brotli, Encoding::Gzip]);
    assert_eq!(options.range_header.as_deref(), Some("bytes=0-1"));
    assert!(options.if_modified_since.is_some());
    assert!(options.if_unmodified_since.is_none());
    assert_eq!(options.buf_chunk_size, 65536);
}

#[test]
fn the_first_of_several_values_counts() {
    let options = options(&[("range", "bytes=0-1"), ("range", "bytes=2-3")]);
    assert_eq!(options.range_header.as_deref(), Some("bytes=0-1"));
}

#[test]
fn bodies() {
    assert!(matches!(empty_body(), ResponseBody::Empty));
    assert!(matches!(body_from_bytes(vec![1, 2]), ResponseBody::Bytes(bytes) if bytes == vec![1, 2]));
    assert!(matches!(body_from_message("no"), ResponseBody::Bytes(bytes) if bytes == b"no"));
}

#[test]
fn bare_responses() {
    let response = response_with_status(412);
    assert_eq!(response.status, 412);
    assert!(response.headers.is_empty());
    assert!(matches!(response.body, ResponseBody::Empty));
}

#[test]
fn a_whole_file_is_served() {
    let time = Some(LastModified::from_unix_seconds(TIME));
    let plan = build_response(&options(&[]), true, Some(Encoding::Gzip), time, "text/html", 1234);
    assert_eq!(plan.seek, None);
    assert_eq!(plan.response.status, 200);
    assert_eq!(header(&plan.response, "content-type"), Some("text/html"));
    assert_eq!(header(&plan.response, "accept-ranges"), Some("bytes"));
    assert_eq!(header(&plan.response, "content-encoding"), Some("gzip"));
    assert_eq!(header(&plan.response, "last-modified"), Some("Sun, 06 Nov 1994 08:49:37 GMT"));
    assert_eq!(header(&plan.response, "content-length"), Some("1234"));
    assert_eq!(header(&plan.response, "content-range"), None);
    assert!(matches!(
        plan.response.body,
        ResponseBody::File { capacity: 65536, limit: None }
    ));
}

#[test]
fn identity_is_not_named() {
    let plan = build_response(&options(&[]), true, Some(Encoding::Identity), None, "text/css", 0);
    assert_eq!(header(&plan.response, "content-encoding"), None);
    assert_eq!(header(&plan.response, "last-modified"), None);
    assert_eq!(header(&plan.response, "content-length"), Some("0"));
}

#[test]
fn a_range_is_served() {
    let options = options(&[("range", "bytes=10-19")]);
    let plan = build_response(&options, true, None, None, "text/css", 100);
    assert_eq!(plan.seek, Some(10));
    assert_eq!(plan.response.status, 206);
    assert_eq!(header(&plan.response, "content-range"), Some("bytes 10-19/100"));
    assert_eq!(header(&plan.response, "content-length"), Some("10"));
    assert!(matches!(
        plan.response.body,
        ResponseBody::File { capacity: 65536, limit: Some(10) }
    ));
}

#[test]
fn a_range_of_an_empty_file_has_no_bytes() {
    let range = Ok(Some(ByteRange { start: 0, end: 0 }));
    let plan = respond_with(range, 8, true, None, None, "text/css", 0);
    assert_eq!(plan.response.status, 206);
    assert_eq!(header(&plan.response, "content-length"), Some("0"));
    assert!(matches!(plan.response.body, ResponseBody::File { capacity: 8, limit: Some(0) }));
}

#[test]
fn unsatisfiable_ranges_are_answered() {
    for (value, message) in [
        ("bytes=100-", "invalidate range header"),
        ("bytes=-101", "invalidate range header"),
        ("bytes=0-1, 4-5", "cannot serve multipart range requests"),
    ] {
        let options = options(&[("range", value)]);
        let plan = build_response(&options, true, None, None, "text/css", 100);
        assert_eq!(plan.seek, None);
        assert_eq!(plan.response.status, 416);
        assert_eq!(header(&plan.response, "content-range"), Some("bytes */100"));
        assert_eq!(header(&plan.response, "content-length"), None);
        assert!(
            matches!(plan.response.body, ResponseBody::Bytes(bytes) if bytes == message.as_bytes())
        );
    }
    let missing = Err(ValidateRangeError::MissingRange);
    let plan = respond_with(missing, 8, true, None, None, "text/css", 1);
    assert_eq!(plan.response.status, 416);
}

#[test]
fn head_requests_are_answered_like_get_requests() {
    for value in ["bytes=10-19", "bytes=0-", "lines=1-2"] {
        let options = options(&[("range", value)]);
        let get = build_response(&options, true, Some(Encoding::Brotli), None, "text/css", 100);
        let head = build_response(&options, false, Some(Encoding::Brotli), None, "text/css", 100);
        assert_eq!(head.response.status, get.response.status);
        assert_eq!(head.response.headers, get.response.headers);
        assert_eq!(head.seek, None);
        if head.response.status != 416 {
            assert!(matches!(head.response.body, ResponseBody::Empty));
        }
    }
}

#[test]
fn served_ranges_lie_in_the_file() {
    for value in ["bytes=0-0", "bytes=99-", "bytes=-1", "bytes=-100", "bytes=50-1000"] {
        let options = options(&[("range", value)]);
        let plan = build_response(&options, true, None, None, "text/css", 100);
        let start = plan.seek.unwrap();
        let length: u64 = header(&plan.response, "content-length").unwrap().parse().unwrap();
        assert!(length >= 1);
        assert!(start + length <= 100);
    }
}

#[test]
fn serving_starts_with_the_directory_check() {
    match try_serve_from_path("/a/b.js", &client()) {
        PathStep::CheckDirectory { path } => {
            assert_eq!(path.segments, vec!["client", "a", "b.js"])
        }
        other => panic!("{other:?}"),
    }
    assert!(matches!(
        try_serve_from_path("/../secret", &client()),
        PathStep::Done { outcome: None }
    ));
}

#[test]
fn the_index_of_a_directory_is_served() {
    let options = options(&[("accept-encoding", "br")]);
    match directory_checked("/docs/", &options, file("docs"), true) {
        PathStep::OpenFile { path, attempt, candidate } => {
            assert_eq!(path.segments, vec!["client", "docs", "index.html"]);
            assert_eq!(attempt, 0);
            assert_eq!(candidate.path.segments, vec!["client", "docs", "index.html.br"]);
            assert_eq!(candidate.encoding, Some(Encoding::Brotli));
        }
        other => panic!("{other:?}"),
    }
    assert!(matches!(
        directory_checked("/docs", &options, file("docs"), true),
        PathStep::Done { outcome: None }
    ));
    assert!(matches!(
        directory_checked("/docs", &options, file("docs"), false),
        PathStep::OpenFile { .. }
    ));
}

#[test]
fn missing_variants_are_skipped() {
    let missing = FileError { kind: FileErrorKind::NotFound, raw_os_error: Some(2) };
    let options = options(&[("accept-encoding", "br, gzip")]);
    let step = file_attempted(&options, "GET", file("a.js"), 0, Err(missing));
    let (path, attempt) = match step {
        PathStep::OpenFile { path, attempt, candidate } => {
            assert_eq!(candidate.path.segments, vec!["client", "a.js.gz"]);
            (path, attempt)
        }
        other => panic!("{other:?}"),
    };
    assert_eq!(attempt, 1);
    let response = done(file_attempted(&options, "GET", path, attempt, Ok(meta(7))));
    assert_eq!(response.status, 200);
    assert_eq!(header(&response, "content-encoding"), Some("gzip"));
    assert_eq!(header(&response, "content-type"), mime_of_javascript().as_deref());
}

fn mime_of_javascript() -> Option<String> {
    mime_guess::from_ext("js").first_raw().map(str::to_string)
}

#[test]
fn missing_files_are_not_served() {
    let missing = FileError { kind: FileErrorKind::NotFound, raw_os_error: Some(2) };
    let step = file_attempted(&options(&[]), "GET", file("a.js"), 0, Err(missing));
    assert!(matches!(step, PathStep::Done { outcome: None }));
    let denied = FileError { kind: FileErrorKind::PermissionDenied, raw_os_error: Some(13) };
    assert!(matches!(file_failed(denied), PathStep::Done { outcome: None }));
    let no_directory = FileError { kind: FileErrorKind::Other, raw_os_error: Some(20) };
    assert!(matches!(file_failed(no_directory), PathStep::Done { outcome: None }));
}

#[test]
fn other_errors_are_errors_of_the_server() {
    let broken = FileError { kind: FileErrorKind::Other, raw_os_error: Some(5) };
    let response = done(file_attempted(&options(&[]), "GET", file("a.js"), 0, Err(broken)));
    assert_eq!(response.status, 500);
    assert!(response.headers.is_empty());
    assert_eq!(done(file_failed(broken)).status, 500);
}

#[test]
fn conditions_are_answered() {
    let since = "Sun, 06 Nov 1994 08:49:37 GMT";
    let unmodified = options(&[("if-modified-since", since)]);
    assert_eq!(done(file_attempted(&unmodified, "GET", file("a"), 0, Ok(meta(1)))).status, 304);
    let before = "Sun, 06 Nov 1994 08:49:36 GMT";
    let failed = options(&[("if-unmodified-since", before)]);
    assert_eq!(done(file_attempted(&failed, "GET", file("a"), 0, Ok(meta(1)))).status, 412);
    let modified = options(&[("if-modified-since", before), ("if-unmodified-since", since)]);
    assert_eq!(done(file_attempted(&modified, "GET", file("a"), 0, Ok(meta(1)))).status, 200);
}

#[test]
fn ranges_are_sought() {
    let options = options(&[("range", "bytes=5-")]);
    match file_attempted(&options, "GET", file("a"), 0, Ok(meta(10))) {
        PathStep::Seek { start, response } => {
            assert_eq!(start, 5);
            assert_eq!(response.status, 206);
            assert_eq!(file_sought(response, true).status, 206);
        }
        other => panic!("{other:?}"),
    }
    assert_eq!(done(file_attempted(&options, "HEAD", file("a"), 0, Ok(meta(10)))).status, 206);
    assert_eq!(file_sought(response_with_status(206), false).status, 500);
}

#[test]
fn candidates_stay_below_the_base() {
    let options = options(&[("accept-encoding", "br, gzip, identity")]);
    for (uri_path, is_dir) in [("/a.js", false), ("/a/b/c", false), ("/", true), ("/x/", true)] {
        let path = match try_serve_from_path(uri_path, &client()) {
            PathStep::CheckDirectory { path } => path,
            other => panic!("{other:?}"),
        };
        let mut step = directory_checked(uri_path, &options, path, is_dir);
        let mut attempts = 0;
        while let PathStep::OpenFile { path, attempt, candidate } = step {
            attempts += 1;
            assert_eq!(candidate.path.segments[0], "client");
            assert!(candidate.path.segments.len() > 1);
            assert!(candidate.path.segments.iter().all(|name| name != ".." && name != "."));
            let missing = FileError { kind: FileErrorKind::NotFound, raw_os_error: Some(2) };
            step = file_attempted(&options, "GET", path, attempt, Err(missing));
        }
        assert_eq!(attempts, 4);
    }
}

#[test]
fn responses_have_few_headers() {
    let options = options(&[("range", "bytes=0-1")]);
    let time = Some(LastModified::from_unix_seconds(TIME));
    let plan = build_response(&options, true, Some(Encoding::Gzip), time, "text/css", 10);
    assert_eq!(plan.response.headers.keys_len(), 6);
    assert_eq!(plan.response.headers.len(), 6);
}

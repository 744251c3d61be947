use http::header::HeaderValue;
use sveltum::content_encoding::{Encoding, QValue};
use sveltum::file::{FileError, FileErrorKind, FileMeta};
use sveltum::headers::{IfModifiedSince, IfUnmodifiedSince, LastModified};
use sveltum::open_file::{
    append_slash_on_path, check_modified_headers, maybe_redirect_or_append_path, open_attempted,
    open_file, open_sought, preferred_encoding, FileOpened, FileRequestExtent, OpenAttempt,
    OpenFileOutput, OpenFileSettings, OpenStep,
};
use sveltum::path::FilePath;
use sveltum::ranges::{ByteRange, UnsatisfiableRange};
use sveltum::request_uri::RequestUri;

const TIME: u64 = 784111777;

const NOT_FOUND: FileError = FileError { kind: FileErrorKind::NotFound, raw_os_error: Some(2) };

fn path(segments: &[&str]) -> FilePath {
    FilePath { segments: segments.iter().map(|segment| segment.to_string()).collect() }
}

fn uri(path: &str) -> RequestUri {
    RequestUri { scheme: None, authority: None, path: path.to_string(), query: None }
}

fn settings(range: Option<&str>) -> OpenFileSettings {
    OpenFileSettings {
        if_unmodified_since: None,
        if_modified_since: None,
        negotiated_encodings: vec![
            (Encoding::Gzip, QValue(1000)),
            (Encoding::Brotli, QValue(1000)),
            (Encoding::Identity, QValue(0)),
        ],
        range_header: range.map(str::to_string),
        buf_chunk_size: 512,
    }
}

fn meta() -> FileMeta {
    FileMeta { len: 100, modified: Some(LastModified::from_unix_seconds(TIME)) }
}

fn attempt(step: OpenStep) -> OpenAttempt {
    match step {
        OpenStep::Open { attempt } => attempt,
        other => panic!("{other:?}"),
    }
}

fn opened(step: OpenStep) -> FileOpened {
    match step {
        OpenStep::Done { output: OpenFileOutput::FileOpened(opened) } => *opened,
        other => panic!("{other:?}"),
    }
}

#[test]
fn the_preferred_encoding_changes_the_path() {
    let mut file = path(&["a.js"]);
    let choices = vec![(Encoding::Gzip, QValue(900)), (Encoding::Brotli, QValue(100))];
    assert_eq!(preferred_encoding(&mut file, &choices), Some(Encoding::Gzip));
    assert_eq!(file.segments, vec!["a.js.gz"]);
    let mut file = path(&["a.js"]);
    assert_eq!(
        preferred_encoding(&mut file, &vec![(Encoding::Identity, QValue(1))]),
        Some(Encoding::Identity)
    );
    assert_eq!(file.segments, vec!["a.js"]);
    assert_eq!(preferred_encoding(&mut file, &vec![(Encoding::Gzip, QValue(0))]), None);
    assert_eq!(file.segments, vec!["a.js"]);
}

#[test]
fn conditions_are_checked() {
    let date = HeaderValue::from_static("Sun, 06 Nov 1994 08:49:37 GMT");
    let same = Some(LastModified::from_unix_seconds(TIME));
    let newer = Some(LastModified::from_unix_seconds(TIME + 1));
    let modified = IfModifiedSince::from_header_value(&date);
    let unmodified = IfUnmodifiedSince::from_header_value(&date);
    assert!(matches!(
        check_modified_headers(same, None, modified),
        Some(OpenFileOutput::NotModified)
    ));
    assert!(check_modified_headers(newer, None, modified).is_none());
    assert!(check_modified_headers(None, None, modified).is_none());
    assert!(matches!(
        check_modified_headers(newer, unmodified, None),
        Some(OpenFileOutput::PreconditionFailed)
    ));
    assert!(matches!(
        check_modified_headers(None, unmodified, modified),
        Some(OpenFileOutput::PreconditionFailed)
    ));
    assert!(check_modified_headers(same, unmodified, None).is_none());
}

#[test]
fn directories_are_redirected_by_name() {
    let mut file = path(&["docs"]);
    match maybe_redirect_or_append_path(&mut file, &uri("/docs"), true, true) {
        Some(OpenFileOutput::Redirect { location }) => assert_eq!(location, "/docs/"),
        other => panic!("{other:?}"),
    }
    assert_eq!(file.segments, vec!["docs"]);
}

#[test]
fn redirects_keep_the_query_and_the_host() {
    let mut file = path(&["docs"]);
    let full = RequestUri {
        scheme: Some("http".to_string()),
        authority: Some("localhost:3000".to_string()),
        path: "/docs".to_string(),
        query: Some("q=1".to_string()),
    };
    match maybe_redirect_or_append_path(&mut file, &full, true, true) {
        Some(OpenFileOutput::Redirect { location }) => {
            assert_eq!(location, "http://localhost:3000/docs/?q=1")
        }
        other => panic!("{other:?}"),
    }
}

#[test]
fn redirects_without_a_scheme_are_refused() {
    let mut file = path(&["docs"]);
    let host = RequestUri { authority: Some("localhost".to_string()), ..uri("/docs") };
    assert!(matches!(append_slash_on_path(&host), Err(OpenFileOutput::InvalidRedirectUri)));
    assert_eq!(append_slash_on_path(&uri("")).unwrap().to_text(), "/");
    assert!(matches!(
        maybe_redirect_or_append_path(&mut file, &host, true, true),
        Some(OpenFileOutput::InvalidRedirectUri)
    ));
}

#[test]
fn directories_with_a_slash_have_an_index() {
    let mut file = path(&["docs"]);
    assert!(maybe_redirect_or_append_path(&mut file, &uri("/docs/"), true, true).is_none());
    assert_eq!(file.segments, vec!["docs", "index.html"]);
    let mut file = path(&["docs"]);
    assert!(matches!(
        maybe_redirect_or_append_path(&mut file, &uri("/docs/"), true, false),
        Some(OpenFileOutput::FileNotFound)
    ));
    assert!(maybe_redirect_or_append_path(&mut file, &uri("/docs"), false, true).is_none());
    assert_eq!(file.segments, vec!["docs"]);
}

#[test]
fn encodings_are_tried_by_preference() {
    let settings = settings(None);
    let first = attempt(open_file(&settings, path(&["a.js"]), &uri("/a.js"), false));
    assert_eq!(first.candidate.segments, vec!["a.js.br"]);
    assert_eq!(first.encoding, Some(Encoding::Brotli));
    let second = attempt(open_attempted(&settings, "GET", first, Err(NOT_FOUND)));
    assert_eq!(second.candidate.segments, vec!["a.js.gz"]);
    assert_eq!(second.encoding, Some(Encoding::Gzip));
    let third = attempt(open_attempted(&settings, "GET", second, Err(NOT_FOUND)));
    assert_eq!(third.candidate.segments, vec!["a.js"]);
    assert_eq!(third.encoding, None);
    match open_attempted(&settings, "GET", third, Err(NOT_FOUND)) {
        OpenStep::Failed { error } => assert_eq!(error, NOT_FOUND),
        other => panic!("{other:?}"),
    }
}

#[test]
fn errors_end_the_opening() {
    let settings = settings(None);
    let denied = FileError { kind: FileErrorKind::PermissionDenied, raw_os_error: Some(13) };
    let first = attempt(open_file(&settings, path(&["a.js"]), &uri("/a.js"), false));
    match open_attempted(&settings, "GET", first, Err(denied)) {
        OpenStep::Failed { error } => assert_eq!(error, denied),
        other => panic!("{other:?}"),
    }
}

#[test]
fn opened_files_tell_what_is_known() {
    let settings = settings(None);
    let first = attempt(open_file(&settings, path(&["a.css"]), &uri("/a.css"), false));
    let file = opened(open_attempted(&settings, "GET", first, Ok(meta())));
    assert_eq!(file.extent, FileRequestExtent::Full(meta()));
    assert_eq!(file.chunk_size, 512);
    assert_eq!(file.mime_header_value, "text/css");
    assert_eq!(file.maybe_encoding, Some(Encoding::Brotli));
    assert_eq!(file.maybe_range, None);
    assert_eq!(file.last_modified, meta().modified);
}

#[test]
fn one_range_is_sought() {
    let settings = settings(Some("bytes=10-19"));
    let first = attempt(open_file(&settings, path(&["a"]), &uri("/a"), false));
    match open_attempted(&settings, "GET", first, Ok(meta())) {
        OpenStep::Seek { start, opened: file } => {
            assert_eq!(start, 10);
            assert_eq!(file.maybe_range, Some(Ok(vec![ByteRange { start: 10, end: 19 }])));
            assert_eq!(opened(open_sought(file, Ok(()))).chunk_size, 512);
        }
        other => panic!("{other:?}"),
    }
}

#[test]
fn nothing_is_sought_for_head_requests_or_several_ranges() {
    let one = settings(Some("bytes=10-19"));
    let first = attempt(open_file(&one, path(&["a"]), &uri("/a"), false));
    let file = opened(open_attempted(&one, "HEAD", first, Ok(meta())));
    assert_eq!(file.extent, FileRequestExtent::Head(meta()));
    let two = settings(Some("bytes=0-1, 4-5"));
    let first = attempt(open_file(&two, path(&["a"]), &uri("/a"), false));
    let file = opened(open_attempted(&two, "GET", first, Ok(meta())));
    assert_eq!(file.maybe_range.unwrap().unwrap().len(), 2);
    let none = settings(Some("bytes=100-"));
    let first = attempt(open_file(&none, path(&["a"]), &uri("/a"), false));
    let file = opened(open_attempted(&none, "GET", first, Ok(meta())));
    assert_eq!(file.maybe_range, Some(Err(UnsatisfiableRange)));
    match open_sought(file, Err(NOT_FOUND)) {
        OpenStep::Failed { error } => assert_eq!(error, NOT_FOUND),
        other => panic!("{other:?}"),
    }
}

#[test]
fn failed_conditions_end_the_opening() {
    let mut settings = settings(None);
    let date = HeaderValue::from_static("Sun, 06 Nov 1994 08:49:37 GMT");
    settings.if_modified_since = IfModifiedSince::from_header_value(&date);
    let first = attempt(open_file(&settings, path(&["a"]), &uri("/a"), false));
    assert!(matches!(
        open_attempted(&settings, "HEAD", first, Ok(meta())),
        OpenStep::Done { output: OpenFileOutput::NotModified }
    ));
    match open_file(&settings, path(&["docs"]), &uri("/docs"), true) {
        OpenStep::Done { output: OpenFileOutput::Redirect { location } } => {
            assert_eq!(location, "/docs/")
        }
        other => panic!("{other:?}"),
    }
}

use sveltum::content_encoding::Encoding;
use sveltum::file::{
    apply_file_extension, attempt_at, open_file_with_fallback, Fallback, FileError, FileErrorKind,
    FileMeta,
};
use sveltum::headers::LastModified;
use sveltum::media_type::{essence_for, file_extension, mime_for};
use sveltum::path::{
    all_normal, build_and_validate_path, path_from_steps, FilePath, PathComponent, ReadStep,
};
use sveltum::request_uri::{html_uri, RequestUri};

fn path(segments: &[&str]) -> FilePath {
    FilePath { segments: segments.iter().map(|segment| segment.to_string()).collect() }
}

fn uri(scheme: Option<&str>, authority: Option<&str>, path: &str, query: Option<&str>) -> RequestUri {
    RequestUri {
        scheme: scheme.map(str::to_string),
        authority: authority.map(str::to_string),
        path: path.to_string(),
        query: query.map(str::to_string),
    }
}

fn built(requested: &str) -> Option<Vec<String>> {
    build_and_validate_path(&path(&["client"]), requested).map(|found| found.segments)
}

fn segments(names: &[&str]) -> Option<Vec<String>> {
    Some(names.iter().map(|name| name.to_string()).collect())
}

const META: FileMeta = FileMeta { len: 12, modified: None };

const NOT_FOUND: FileError = FileError { kind: FileErrorKind::NotFound, raw_os_error: Some(2) };

const DENIED: FileError =
    FileError { kind: FileErrorKind::PermissionDenied, raw_os_error: Some(13) };

#[test]
fn requested_paths_lie_under_the_base() {
    assert_eq!(built("/"), segments(&["client"]));
    assert_eq!(built(""), segments(&["client"]));
    assert_eq!(built("/a/b.js"), segments(&["client", "a", "b.js"]));
    assert_eq!(built("//a//b/"), segments(&["client", "a", "b"]));
    assert_eq!(built("/a/./b"), segments(&["client", "a", "b"]));
    assert_eq!(built("/./a"), segments(&["client", "a"]));
}

#[test]
fn requested_paths_are_decoded() {
    assert_eq!(built("/a%20b.txt"), segments(&["client", "a b.txt"]));
    assert_eq!(built("/a%2Fb"), segments(&["client", "a", "b"]));
    assert_eq!(built("/%C3%A9"), segments(&["client", "\u{e9}"]));
    assert_eq!(built("/100%"), segments(&["client", "100%"]));
    assert_eq!(built("/%zz"), segments(&["client", "%zz"]));
}

#[test]
fn paths_that_lead_out_are_refused() {
    assert_eq!(built("/.."), None);
    assert_eq!(built("/a/../b"), None);
    assert_eq!(built("/a/%2e%2e/b"), None);
    assert_eq!(built("/%2Fetc/passwd"), None);
}

#[test]
fn colons_stand_in_names() {
    assert_eq!(built("/wiki/Help:Contents"), segments(&["client", "wiki", "Help:Contents"]));
    assert_eq!(built("/wiki/Help%3aContents/"), segments(&["client", "wiki", "Help:Contents"]));
    assert_eq!(built("/Help:Contents/../x"), None);
    assert_eq!(built("/%2FHelp:Contents"), None);
    assert_eq!(built("/%2F%2Fhost/share"), None);
}

fn step(component: PathComponent, plain: bool) -> ReadStep {
    ReadStep { component, plain }
}

fn name(text: &str, plain: bool) -> ReadStep {
    step(PathComponent::Normal(text.to_string()), plain)
}

fn followed(steps: Vec<ReadStep>) -> Option<Vec<String>> {
    path_from_steps(&path(&["client"]), &steps).map(|found| found.segments)
}

#[test]
fn steps_lead_to_files() {
    assert_eq!(followed(vec![]), segments(&["client"]));
    assert_eq!(
        followed(vec![step(PathComponent::CurDir, true), name("a", true), name("b", true)]),
        segments(&["client", "a", "b"])
    );
    assert_eq!(followed(vec![name("a", true), name("c:", false)]), None);
    for component in [PathComponent::Prefix, PathComponent::RootDir, PathComponent::ParentDir] {
        assert_eq!(followed(vec![name("a", true), step(component, true)]), None);
    }
}

#[test]
fn components_that_are_names() {
    assert!(all_normal(&vec![PathComponent::Normal("a".to_string())]));
    assert!(all_normal(&vec![]));
    assert!(!all_normal(&vec![PathComponent::Normal("a".to_string()), PathComponent::CurDir]));
}

#[test]
fn paths_that_are_no_text_are_refused() {
    assert_eq!(built("/%ff"), None);
    assert_eq!(built("/%C3"), None);
}

#[test]
fn extensions_are_appended() {
    let mut found = path(&["client", "a.js"]);
    apply_file_extension(&mut found, ".gz");
    assert_eq!(found.segments, vec!["client", "a.js.gz"]);
    let mut found = path(&[]);
    apply_file_extension(&mut found, ".br");
    assert_eq!(found.segments, vec![".br"]);
}

#[test]
fn attempts_follow_the_negotiated_encodings() {
    let file = path(&["client", "a.js"]);
    let encodings = vec![Encoding::Identity, Encoding::Brotli];
    let first = attempt_at(&file, &encodings, 0);
    assert_eq!(first.path.segments, vec!["client", "a.js"]);
    assert_eq!(first.encoding, Some(Encoding::Identity));
    let second = attempt_at(&file, &encodings, 1);
    assert_eq!(second.path.segments, vec!["client", "a.js.br"]);
    assert_eq!(second.encoding, Some(Encoding::Brotli));
    let last = attempt_at(&file, &encodings, 2);
    assert_eq!(last.path.segments, vec!["client", "a.js"]);
    assert_eq!(last.encoding, None);
}

#[test]
fn a_missing_variant_leads_to_the_next() {
    let encodings = vec![Encoding::Brotli, Encoding::Gzip];
    assert!(matches!(
        open_file_with_fallback(&encodings, 0, Err(NOT_FOUND)),
        Fallback::Retry { attempt: 1 }
    ));
    assert!(matches!(
        open_file_with_fallback(&encodings, 1, Err(NOT_FOUND)),
        Fallback::Retry { attempt: 2 }
    ));
    assert!(matches!(
        open_file_with_fallback(&encodings, 2, Err(NOT_FOUND)),
        Fallback::Failed { error: NOT_FOUND }
    ));
}

#[test]
fn other_errors_end_the_search() {
    let encodings = vec![Encoding::Brotli];
    assert!(matches!(
        open_file_with_fallback(&encodings, 0, Err(DENIED)),
        Fallback::Failed { error: DENIED }
    ));
}

#[test]
fn an_opened_variant_ends_the_search() {
    let encodings = vec![Encoding::Brotli];
    assert!(matches!(
        open_file_with_fallback(&encodings, 0, Ok(META)),
        Fallback::Opened { meta: META, encoding: Some(Encoding::Brotli) }
    ));
    assert!(matches!(
        open_file_with_fallback(&encodings, 1, Ok(META)),
        Fallback::Opened { meta: META, encoding: None }
    ));
}

#[test]
fn missing_files_are_told_from_errors() {
    let error = |kind, raw_os_error| FileError { kind, raw_os_error };
    assert!(error(FileErrorKind::NotFound, None).is_missing());
    assert!(error(FileErrorKind::PermissionDenied, None).is_missing());
    assert!(error(FileErrorKind::Other, Some(20)).is_missing());
    assert!(!error(FileErrorKind::Other, Some(5)).is_missing());
    assert!(!error(FileErrorKind::Other, None).is_missing());
}

#[test]
fn times_are_kept() {
    let time = LastModified::from_unix_seconds(77);
    let meta = FileMeta { len: 1, modified: Some(time) };
    assert_eq!(meta.modified, Some(time));
}

#[test]
fn extensions_of_names() {
    assert_eq!(file_extension("a.tar.gz"), Some("gz".to_string()));
    assert_eq!(file_extension("a."), Some("".to_string()));
    assert_eq!(file_extension(".hidden"), None);
    assert_eq!(file_extension("plain"), None);
    assert_eq!(file_extension(""), None);
}

#[test]
fn media_types_of_names() {
    assert_eq!(mime_for("index.html"), "text/html");
    assert_eq!(mime_for("style.css"), "text/css");
    assert_eq!(mime_for("image.PNG"), "image/png");
    assert_eq!(mime_for("data.unknown-extension"), "application/octet-stream");
    assert_eq!(mime_for("plain"), "application/octet-stream");
}

#[test]
fn essences_of_names() {
    assert_eq!(essence_for("index.html"), "text/html");
    assert_eq!(essence_for("image.png"), "image/png");
    assert_eq!(essence_for("data.unknown-extension"), "application/octet-stream");
    assert_eq!(essence_for("plain"), "application/octet-stream");
}

#[test]
fn uris_are_written() {
    assert_eq!(uri(None, None, "/a", Some("b=c")).to_text(), "/a?b=c");
    assert_eq!(
        uri(Some("https"), Some("example.com:8080"), "/", None).to_text(),
        "https://example.com:8080/"
    );
    assert_eq!(uri(None, Some("example.com:443"), "", None).to_text(), "example.com:443");
}

#[test]
fn paths_and_queries_are_read() {
    let read = RequestUri::from_path_and_query("/a?b?c#d").unwrap();
    assert_eq!(read.path, "/a");
    assert_eq!(read.query.as_deref(), Some("b?c"));
    assert!(read.scheme.is_none());
    assert!(read.authority.is_none());
    assert_eq!(RequestUri::from_path_and_query("").unwrap().path, "/");
    assert!(RequestUri::from_path_and_query("/a b").is_none());
    assert!(RequestUri::from_path_and_query("/a?b c").is_none());
}

#[test]
fn a_slash_is_appended_to_the_path() {
    let slashed = uri(None, None, "/docs", Some("page=2")).with_slash().unwrap();
    assert_eq!(slashed.to_text(), "/docs/?page=2");
    let slashed = uri(Some("http"), Some("localhost"), "/docs", None).with_slash().unwrap();
    assert_eq!(slashed.to_text(), "http://localhost/docs/");
    assert!(uri(None, Some("localhost"), "/docs", None).with_slash().is_none());
}

#[test]
fn pages_lie_under_html_paths() {
    assert_eq!(html_uri("/about").to_text(), "/about.html");
    assert_eq!(html_uri("/about/").to_text(), "/about.html");
    assert_eq!(html_uri("/").to_text(), ".html");
    assert_eq!(html_uri("/a//").to_text(), "/a/.html");
}

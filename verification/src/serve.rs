//! Serving files.
use crate::content_encoding::Encoding;
use crate::file::{
    self, attempt_at, open_file_with_fallback, Attempt, Fallback, FileError, FileMeta,
};
use crate::header_map;
use crate::headers::{self, failed_condition, FailedCondition, LastModified};
use crate::media_type::{self, mime_for};
use crate::path::{self, build_and_validate_path, FilePath};
use crate::ranges::{self, try_parse_range, validate_range, ByteRange};
use crate::request::{self, reads_metadata_only, FileRequest, FileRequestOptions};
use crate::response::{
    self, add_header, body_from_message, empty_body, response_with_status, Body, Reply, Response,
    ResponseBody,
};
use crate::text::{self, concat, decimal_text, ends_with};
use vstd::prelude::*;
use vstd::string::StringExecFns;

verus! {

/// The headers with one more, whose value is text.
pub open spec fn with_header(
    headers: header_map::HeaderContents,
    name: Seq<char>,
    text: Seq<char>,
) -> header_map::HeaderContents {
    header_map::appended(headers, name, vstd::utf8::encode_utf8(text))
}

/// The headers of every response with a file: its media type, that ranges of it can be
/// asked for, the encoding that it comes in, and when it was last modified.
pub open spec fn file_headers(
    mime: Seq<char>,
    encoding: Option<Encoding>,
    modified: Option<u64>,
) -> header_map::HeaderContents {
    let plain = with_header(
        with_header(header_map::HeaderContents::empty(), "content-type"@, mime),
        "accept-ranges"@,
        "bytes"@,
    );
    let encoded = match encoding {
        Some(encoding) => if encoding == Encoding::Identity {
            plain
        } else {
            with_header(plain, "content-encoding"@, encoding.name())
        },
        None => plain,
    };
    match modified {
        Some(seconds) => with_header(encoded, "last-modified"@, headers::http_date(seconds)),
        None => encoded,
    }
}

/// The text of a `Content-Range` header where no range is served.
pub open spec fn unsatisfied_range(size: u64) -> Seq<char> {
    "bytes */"@ + text::decimal(size as nat)
}

/// The text of a `Content-Range` header for the range that is served.
pub open spec fn satisfied_range(range: ByteRange, size: u64) -> Seq<char> {
    "bytes "@ + text::decimal(range.start as nat) + "-"@ + text::decimal(range.end as nat) + "/"@
        + text::decimal(size as nat)
}

/// The number of bytes that are sent of a range; an empty file has none to send.
pub open spec fn range_length(range: ByteRange, size: u64) -> nat {
    if size == 0 {
        0
    } else {
        (range.end - range.start + 1) as nat
    }
}

/// The body of a response with a file that was opened, or with one that was only looked
/// at.
pub open spec fn file_body(opened: bool, capacity: usize, limit: Option<u64>) -> Body {
    if opened {
        Body::File { capacity, limit }
    } else {
        Body::Empty
    }
}

/// The ranges that a request asks for in a file of this size.
pub open spec fn requested_ranges(
    request: FileRequest,
    size: u64,
) -> Option<Option<Seq<ByteRange>>> {
    match request.range {
        Some(text) => Some(ranges::ranges_of(text, size)),
        None => None,
    }
}

/// The response with a file, given what the `Range` header asks for: the whole file, one
/// range of it, or a refusal.
pub open spec fn reply_with(
    asked: Result<Option<ByteRange>, ranges::ValidateRangeError>,
    buf_chunk_size: usize,
    opened: bool,
    encoding: Option<Encoding>,
    modified: Option<u64>,
    mime: Seq<char>,
    size: u64,
) -> Reply {
    let headers = file_headers(mime, encoding, modified);
    match asked {
        Err(error) => Reply {
            status: 416,
            headers: with_header(headers, "content-range"@, unsatisfied_range(size)),
            body: Body::Bytes(vstd::utf8::encode_utf8(error.text())),
        },
        Ok(Some(range)) => Reply {
            status: 206,
            headers: with_header(
                with_header(headers, "content-range"@, satisfied_range(range, size)),
                "content-length"@,
                text::decimal(range_length(range, size)),
            ),
            body: file_body(opened, buf_chunk_size, Some(range_length(range, size) as u64)),
        },
        Ok(None) => Reply {
            status: 200,
            headers: with_header(headers, "content-length"@, text::decimal(size as nat)),
            body: file_body(opened, buf_chunk_size, None),
        },
    }
}

/// The response with a file.
pub open spec fn file_reply(
    request: FileRequest,
    opened: bool,
    encoding: Option<Encoding>,
    modified: Option<u64>,
    mime: Seq<char>,
    size: u64,
) -> Reply {
    reply_with(
        ranges::single_range(requested_ranges(request, size)),
        request.buf_chunk_size,
        opened,
        encoding,
        modified,
        mime,
        size,
    )
}

/// Where to go in a file before it is sent.
pub open spec fn seek_target(
    asked: Result<Option<ByteRange>, ranges::ValidateRangeError>,
    opened: bool,
) -> Option<u64> {
    if opened && asked matches Ok(Some(_)) {
        Some(asked->Ok_0->0.start)
    } else {
        None
    }
}

/// Whether the date that is sent with a file names the time at which it was modified.
pub open spec fn sends_its_date(modified: Option<LastModified>) -> bool {
    modified matches Some(time) ==> headers::reads_back(time.seconds())
}

/// A response that may need the file to be read from another position than its start.
#[derive(Debug)]
pub struct FilePlan {
    /// The position to go to before the response is sent.
    pub seek: Option<u64>,
    pub response: Response,
}

proof fn lemma_digits_visible(n: nat)
    ensures
        media_type::is_visible(text::decimal(n)),
    decreases n,
{
    if n >= 10 {
        lemma_digits_visible(n / 10);
    }
}

proof fn lemma_visible_concat(a: Seq<char>, b: Seq<char>)
    requires
        media_type::is_visible(a),
        media_type::is_visible(b),
    ensures
        media_type::is_visible(a + b),
{
    assert forall|i: int| 0 <= i < (a + b).len() implies ' ' <= #[trigger] (a + b)[i] <= '~' by {
        if i < a.len() {
            assert((a + b)[i] == a[i]);
        } else {
            assert((a + b)[i] == b[i - a.len()]);
        }
    }
}

/// Whether headers have at most this many names.
pub open spec fn at_most(headers: header_map::HeaderContents, n: nat) -> bool {
    headers.dom().finite() && headers.dom().len() <= n
}

proof fn lemma_one_more(headers: header_map::HeaderContents, name: Seq<char>, text: Seq<char>, n: nat)
    requires
        at_most(headers, n),
    ensures
        at_most(with_header(headers, name, text), n + 1),
{
    assert(with_header(headers, name, text).dom() =~= headers.dom().insert(name));
}

/// The ranges that a header names in a file start before they end, and end in the file.
proof fn lemma_ranges_inside(text: Seq<char>, size: u64)
    ensures
        ranges::ranges_of(text, size) matches Some(found) ==> forall|i: int|
            0 <= i < found.len() ==> (#[trigger] found[i]).start <= found[i].end
                && found[i].end <= ranges::last_index(size),
{
    if ranges::ranges_of(text, size) is Some {
        let requested = ranges::ranges_in_header(text)->0;
        let found = ranges::ranges_of(text, size)->0;
        assert forall|i: int| 0 <= i < found.len() implies (#[trigger] found[i]).start
            <= found[i].end && found[i].end <= ranges::last_index(size) by {
            assert(found[i] == ranges::resolved(requested[i], size));
        }
    }
}

/// Decides on the response with a file, of which a range can be asked for.
pub fn build_response(
    settings: &FileRequestOptions,
    opened: bool,
    maybe_encoding: Option<Encoding>,
    last_modified: Option<LastModified>,
    mime: &str,
    size: u64,
) -> (plan: FilePlan)
    requires
        media_type::is_visible(mime@),
    ensures
        plan.response@ == file_reply(
            settings@,
            opened,
            maybe_encoding,
            headers::modified_seconds(last_modified),
            mime@,
            size,
        ),
        plan.seek == seek_target(
            ranges::single_range(requested_ranges(settings@, size)),
            opened,
        ),
        sends_its_date(last_modified),
{
    let range_header = match &settings.range_header {
        Some(text) => Some(text.as_str()),
        None => None,
    };
    let maybe_ranges = try_parse_range(range_header, size);
    let asked = validate_range(&maybe_ranges);
    proof {
        if range_header is Some {
            lemma_ranges_inside(range_header->0@, size);
        }
    }
    assert(asked == ranges::single_range(requested_ranges(settings@, size)));
    respond_with(
        asked,
        settings.buf_chunk_size,
        opened,
        maybe_encoding,
        last_modified,
        mime,
        size,
    )
}

/// The bytes that a request asks for lie in a file of this size, or the file is empty.
pub open spec fn is_inside(range: ByteRange, size: u64) -> bool {
    range.start <= range.end <= ranges::last_index(size)
}

/// Decides on the response with a file, given what the `Range` header asks for.
pub fn respond_with(
    asked: Result<Option<ByteRange>, ranges::ValidateRangeError>,
    buf_chunk_size: usize,
    opened: bool,
    maybe_encoding: Option<Encoding>,
    last_modified: Option<LastModified>,
    mime: &str,
    size: u64,
) -> (plan: FilePlan)
    requires
        media_type::is_visible(mime@),
        asked matches Ok(Some(range)) ==> is_inside(range, size),
    ensures
        plan.response@ == reply_with(
            asked,
            buf_chunk_size,
            opened,
            maybe_encoding,
            headers::modified_seconds(last_modified),
            mime@,
            size,
        ),
        plan.seek == seek_target(asked, opened),
        sends_its_date(last_modified),
{
    proof {
        reveal_strlit("content-type");
        reveal_strlit("accept-ranges");
        reveal_strlit("bytes");
        reveal_strlit("content-encoding");
        reveal_strlit("last-modified");
        reveal_strlit("content-range");
        reveal_strlit("content-length");
        reveal_strlit("bytes */");
        reveal_strlit("bytes ");
        reveal_strlit("-");
        reveal_strlit("/");
        reveal_strlit("gzip");
        reveal_strlit("br");
        reveal_strlit("identity");
        lemma_digits_visible(size as nat);
    }
    let ghost empty = header_map::HeaderContents::empty();
    let mut response = response_with_status(200);
    proof {
        assert(at_most(empty, 0));
        lemma_one_more(empty, "content-type"@, mime@, 0);
    }
    add_header(&mut response.headers, "content-type", mime);
    let ghost typed = with_header(empty, "content-type"@, mime@);
    proof {
        lemma_one_more(typed, "accept-ranges"@, "bytes"@, 1);
    }
    add_header(&mut response.headers, "accept-ranges", "bytes");
    let ghost plain = with_header(typed, "accept-ranges"@, "bytes"@);
    if let Some(encoding) = maybe_encoding {
        if encoding != Encoding::Identity {
            proof {
                lemma_one_more(plain, "content-encoding"@, encoding.name(), 2);
            }
            add_header(&mut response.headers, "content-encoding", encoding.to_str());
        }
    }
    let ghost encoded = header_map::header_values(response.headers);
    assert(at_most(encoded, 3));
    if let Some(time) = last_modified {
        let date = time.to_text();
        proof {
            lemma_one_more(encoded, "last-modified"@, date@, 3);
        }
        add_header(&mut response.headers, "last-modified", date.as_str());
    }
    let ghost common = header_map::header_values(response.headers);
    assert(common == file_headers(
        mime@,
        maybe_encoding,
        headers::modified_seconds(last_modified),
    ));
    assert(at_most(common, 4));
    match asked {
        Err(error) => {
            let range = concat("bytes */", decimal_text(size).as_str());
            proof {
                lemma_visible_concat("bytes */"@, text::decimal(size as nat));
            }
            add_header(&mut response.headers, "content-range", range.as_str());
            response.status = 416;
            response.body = body_from_message(error.message());
            FilePlan { seek: None, response }
        },
        Ok(Some(range)) => {
            let content_length: u64 = if size == 0 {
                0
            } else {
                range.end - range.start + 1
            };
            let shown = shown_range(range, size);
            proof {
                lemma_digits_visible(content_length as nat);
                lemma_one_more(common, "content-range"@, shown@, 4);
            }
            add_header(&mut response.headers, "content-range", shown.as_str());
            add_header(
                &mut response.headers,
                "content-length",
                decimal_text(content_length).as_str(),
            );
            response.status = 206;
            response.body = if opened {
                ResponseBody::File { capacity: buf_chunk_size, limit: Some(content_length) }
            } else {
                empty_body()
            };
            let seek = if opened {
                Some(range.start)
            } else {
                None
            };
            FilePlan { seek, response }
        },
        Ok(None) => {
            add_header(&mut response.headers, "content-length", decimal_text(size).as_str());
            response.body = if opened {
                ResponseBody::File { capacity: buf_chunk_size, limit: None }
            } else {
                empty_body()
            };
            FilePlan { seek: None, response }
        },
    }
}

fn shown_range(range: ByteRange, size: u64) -> (shown: String)
    ensures
        shown@ == satisfied_range(range, size),
        media_type::is_visible(shown@),
{
    let mut shown = concat("bytes ", decimal_text(range.start).as_str());
    shown.append("-");
    shown.append(decimal_text(range.end).as_str());
    shown.append("/");
    shown.append(decimal_text(size).as_str());
    proof {
        reveal_strlit("bytes ");
        reveal_strlit("-");
        reveal_strlit("/");
        let start = text::decimal(range.start as nat);
        let end = text::decimal(range.end as nat);
        lemma_digits_visible(range.start as nat);
        lemma_digits_visible(range.end as nat);
        lemma_digits_visible(size as nat);
        lemma_visible_concat("bytes "@, start);
        lemma_visible_concat("bytes "@ + start, "-"@);
        lemma_visible_concat("bytes "@ + start + "-"@, end);
        lemma_visible_concat("bytes "@ + start + "-"@ + end, "/"@);
        lemma_visible_concat("bytes "@ + start + "-"@ + end + "/"@, text::decimal(size as nat));
    }
    shown
}

/// What is to be done next to serve what lies under a path.
#[derive(Debug)]
pub enum PathStep {
    /// Find out whether there is a directory under the path.
    CheckDirectory { path: FilePath },
    /// Make an attempt to open the file, or to read its metadata for a `HEAD` request.
    OpenFile { path: FilePath, attempt: usize, candidate: Attempt },
    /// Go to a position in the opened file, then send the response.
    Seek { start: u64, response: Response },
    /// Send the response; without one, there is nothing to serve.
    Done { outcome: Option<Response> },
}

/// What is to be done next to serve what lies under a path.
pub enum Stage {
    CheckDirectory { path: Seq<Seq<char>> },
    OpenFile {
        path: Seq<Seq<char>>,
        attempt: usize,
        candidate: Seq<Seq<char>>,
        encoding: Option<Encoding>,
    },
    Seek { start: u64, reply: Reply },
    Done { outcome: Option<Reply> },
}

/// What an optional response says.
pub open spec fn optional_reply(response: Option<Response>) -> Option<Reply> {
    match response {
        Some(response) => Some(response@),
        None => None,
    }
}

impl View for PathStep {
    type V = Stage;

    open spec fn view(&self) -> Stage {
        match self {
            PathStep::CheckDirectory { path } => Stage::CheckDirectory { path: path@ },
            PathStep::OpenFile { path, attempt, candidate } => Stage::OpenFile {
                path: path@,
                attempt: *attempt,
                candidate: candidate.path@,
                encoding: candidate.encoding,
            },
            PathStep::Seek { start, response } => Stage::Seek { start: *start, reply: response@ },
            PathStep::Done { outcome } => Stage::Done { outcome: optional_reply(*outcome) },
        }
    }
}

/// An attempt to open a file.
pub open spec fn opening(encodings: Seq<Encoding>, path: Seq<Seq<char>>, attempt: usize) -> Stage {
    let encoding = file::attempted(encodings, attempt as int);
    Stage::OpenFile { path, attempt, candidate: file::variant(path, encoding), encoding }
}

/// Whether the path of a URI ends with a slash.
pub open spec fn has_trailing_slash(uri_path: Seq<char>) -> bool {
    uri_path.len() > 0 && uri_path.last() == '/'
}

/// The file to serve for a path: the index of a directory, or the file itself. A
/// directory is not served under a path that does not end with a slash.
pub open spec fn file_to_serve(
    uri_path: Seq<char>,
    path: Seq<Seq<char>>,
    is_dir: bool,
) -> Option<Seq<Seq<char>>> {
    if !is_dir {
        Some(path)
    } else if has_trailing_slash(uri_path) {
        Some(path.push("index.html"@))
    } else {
        None
    }
}

/// What follows once it is known whether there is a directory under the path.
pub open spec fn after_directory_check(
    uri_path: Seq<char>,
    encodings: Seq<Encoding>,
    path: Seq<Seq<char>>,
    is_dir: bool,
) -> Stage {
    match file_to_serve(uri_path, path, is_dir) {
        Some(file) => opening(encodings, file, 0),
        None => Stage::Done { outcome: None },
    }
}

/// The name of the file that a path leads to.
pub open spec fn file_name(path: Seq<Seq<char>>) -> Seq<char> {
    if path.len() > 0 {
        path.last()
    } else {
        Seq::empty()
    }
}

/// What follows once a file was opened, or its metadata was read.
pub open spec fn after_found(
    request: FileRequest,
    opened: bool,
    path: Seq<Seq<char>>,
    meta: FileMeta,
    encoding: Option<Encoding>,
) -> Stage {
    let modified = headers::modified_seconds(meta.modified);
    match headers::condition_failing(
        modified,
        request.if_unmodified_since,
        request.if_modified_since,
    ) {
        Some(FailedCondition::PreconditionFailed) => Stage::Done { outcome: Some(response::bare(412)) },
        Some(FailedCondition::NotModified) => Stage::Done { outcome: Some(response::bare(304)) },
        None => {
            let mime = media_type::mime_of(file_name(path));
            let reply = file_reply(request, opened, encoding, modified, mime, meta.len);
            match seek_target(ranges::single_range(requested_ranges(request, meta.len)), opened) {
                Some(start) => Stage::Seek { start, reply },
                None => Stage::Done { outcome: Some(reply) },
            }
        },
    }
}

/// What follows where no file could be opened: nothing is served if there is none, and
/// any other error is an error of the server.
pub open spec fn after_failure(error: FileError) -> Stage {
    Stage::Done {
        outcome: if error.spec_is_missing() {
            None
        } else {
            Some(response::bare(500))
        },
    }
}

/// What follows an attempt to open a file.
pub open spec fn after_attempt(
    request: FileRequest,
    opened: bool,
    path: Seq<Seq<char>>,
    attempt: usize,
    result: Result<FileMeta, FileError>,
) -> Stage {
    match file::fallback(request.encodings, attempt, result) {
        Fallback::Retry { attempt: next } => opening(request.encodings, path, next),
        Fallback::Failed { error } => after_failure(error),
        Fallback::Opened { meta, encoding } => after_found(request, opened, path, meta, encoding),
    }
}

/// What follows once the file was brought to the right position, or could not be.
pub open spec fn after_seek(reply: Reply, done: bool) -> Reply {
    if done {
        reply
    } else {
        response::bare(500)
    }
}

/// The stage with which serving a path starts; there is nothing to serve where the path of
/// the request was refused.
pub open spec fn start_of(path: Option<Seq<Seq<char>>>) -> Stage {
    match path {
        Some(path) => Stage::CheckDirectory { path },
        None => Stage::Done { outcome: None },
    }
}

/// Where serving what lies under a base directory starts, for the path of a URI: with
/// the path of the file that it asks for, or, where the path of the URI is refused, with
/// nothing to serve.
pub open spec fn is_start(base: Seq<Seq<char>>, uri_path: Seq<char>, stage: Stage) -> bool {
    exists|path: Option<Seq<Seq<char>>>|
        #[trigger] path::is_file_path(base, uri_path, path) && stage == start_of(path)
}

/// Starts to serve what lies under a base directory, for the path of a URI. A path that
/// is refused leads to nothing.
pub fn try_serve_from_path(uri_path: &str, base: &FilePath) -> (step: PathStep)
    ensures
        is_start(base@, uri_path@, step@),
{
    let path = build_and_validate_path(base, uri_path);
    assert(path::is_file_path(base@, uri_path@, path::optional_path(path)));
    match path {
        Some(path) => PathStep::CheckDirectory { path },
        None => PathStep::Done { outcome: None },
    }
}

fn open_step(settings: &FileRequestOptions, path: FilePath, attempt: usize) -> (step: PathStep)
    ensures
        step@ == opening(settings@.encodings, path@, attempt),
{
    let candidate = attempt_at(&path, &settings.negotiated_encodings, attempt);
    PathStep::OpenFile { path, attempt, candidate }
}

/// Goes on once it is known whether there is a directory under the path.
pub fn directory_checked(
    uri_path: &str,
    settings: &FileRequestOptions,
    path: FilePath,
    is_dir: bool,
) -> (step: PathStep)
    ensures
        step@ == after_directory_check(uri_path@, settings@.encodings, path@, is_dir),
{
    let mut path = path;
    if is_dir {
        // A directory cannot be served where it is referenced by its name.
        if !ends_with(uri_path, '/') {
            return PathStep::Done { outcome: None };
        }
        let ghost segments = path.segments@;
        path.segments.push("index.html".to_owned());
        assert(path@ =~= text::texts(segments).push("index.html"@));
    }
    open_step(settings, path, 0)
}

/// Ends where there is no file to be served: it could not be opened in any variant, or the
/// metadata of the opened file could not be read.
pub fn file_failed(error: FileError) -> (step: PathStep)
    ensures
        step@ == after_failure(error),
{
    let outcome = if error.is_missing() {
        None
    } else {
        Some(response_with_status(500))
    };
    PathStep::Done { outcome }
}

/// Goes on once an attempt was made to open a file, or, for a method that asks for what is
/// known of it only, to read its metadata.
pub fn file_attempted(
    settings: &FileRequestOptions,
    method: &str,
    path: FilePath,
    attempt: usize,
    result: Result<FileMeta, FileError>,
) -> (step: PathStep)
    ensures
        step@ == after_attempt(
            settings@,
            !request::is_metadata_method(method@),
            path@,
            attempt,
            result,
        ),
{
    let opened = !reads_metadata_only(method);
    let (meta, encoding) = match open_file_with_fallback(
        &settings.negotiated_encodings,
        attempt,
        result,
    ) {
        Fallback::Opened { meta, encoding } => (meta, encoding),
        Fallback::Retry { attempt: next } => {
            return open_step(settings, path, next);
        },
        Fallback::Failed { error } => {
            return file_failed(error);
        },
    };
    match failed_condition(
        meta.modified,
        settings.if_unmodified_since,
        settings.if_modified_since,
    ) {
        Some(FailedCondition::PreconditionFailed) => {
            return PathStep::Done { outcome: Some(response_with_status(412)) };
        },
        Some(FailedCondition::NotModified) => {
            return PathStep::Done { outcome: Some(response_with_status(304)) };
        },
        None => {},
    }
    let mime = if path.segments.len() > 0 {
        mime_for(path.segments[path.segments.len() - 1].as_str())
    } else {
        mime_for("")
    };
    proof {
        reveal_strlit("");
        assert(""@ =~= Seq::<char>::empty());
    }
    let plan = build_response(settings, opened, encoding, meta.modified, mime.as_str(), meta.len);
    match plan.seek {
        Some(start) => PathStep::Seek { start, response: plan.response },
        None => PathStep::Done { outcome: Some(plan.response) },
    }
}

/// Ends with the response once the file was brought to the right position.
pub fn file_sought(response: Response, done: bool) -> (r: Response)
    ensures
        r@ == after_seek(response@, done),
{
    if done {
        response
    } else {
        response_with_status(500)
    }
}

/// What the file system answers while a request is served.
pub struct FileSystem {
    pub is_dir: spec_fn(Seq<Seq<char>>) -> bool,
    pub open: spec_fn(Seq<Seq<char>>) -> Result<FileMeta, FileError>,
    pub seek: spec_fn(u64) -> bool,
}

/// How far a stage is from the end.
pub open spec fn distance(stage: Stage) -> nat {
    match stage {
        Stage::CheckDirectory { .. } => 3,
        Stage::OpenFile { .. } => 2,
        Stage::Seek { .. } => 1,
        Stage::Done { .. } => 0,
    }
}

/// The number of attempts that are left.
pub open spec fn attempts_left(request: FileRequest, stage: Stage) -> int {
    match stage {
        Stage::OpenFile { attempt, .. } => request.encodings.len() - attempt,
        _ => 0,
    }
}

/// What a request is answered in the end, going from stage to stage as the file system
/// answers.
pub open spec fn run(
    fs: FileSystem,
    uri_path: Seq<char>,
    opened: bool,
    request: FileRequest,
    stage: Stage,
) -> Option<Reply>
    decreases distance(stage), attempts_left(request, stage),
    when request.encodings.len() <= usize::MAX
{
    match stage {
        Stage::CheckDirectory { path } => run(
            fs,
            uri_path,
            opened,
            request,
            after_directory_check(uri_path, request.encodings, path, (fs.is_dir)(path)),
        ),
        Stage::OpenFile { path, attempt, candidate, encoding } => run(
            fs,
            uri_path,
            opened,
            request,
            after_attempt(request, opened, path, attempt, (fs.open)(candidate)),
        ),
        Stage::Seek { start, reply } => Some(after_seek(reply, (fs.seek)(start))),
        Stage::Done { outcome } => outcome,
    }
}

/// What a request is answered for a file, given how the search for it ended.
pub open spec fn answer(
    fs: FileSystem,
    opened: bool,
    request: FileRequest,
    path: Seq<Seq<char>>,
    found: (Option<Encoding>, Result<FileMeta, FileError>),
) -> Option<Reply> {
    let stage = match found.1 {
        Ok(meta) => after_found(request, opened, path, meta, found.0),
        Err(error) => after_failure(error),
    };
    match stage {
        Stage::Seek { start, reply } => Some(after_seek(reply, (fs.seek)(start))),
        Stage::Done { outcome } => outcome,
        _ => None,
    }
}

proof fn lemma_run_attempts(
    fs: FileSystem,
    uri_path: Seq<char>,
    opened: bool,
    request: FileRequest,
    path: Seq<Seq<char>>,
    attempt: usize,
)
    requires
        attempt <= request.encodings.len() <= usize::MAX,
    ensures
        run(fs, uri_path, opened, request, opening(request.encodings, path, attempt)) == answer(
            fs,
            opened,
            request,
            path,
            file::search_from(fs.open, path, request.encodings, attempt),
        ),
    decreases request.encodings.len() - attempt,
{
    let result = (fs.open)(
        file::variant(path, file::attempted(request.encodings, attempt as int)),
    );
    let next = after_attempt(request, opened, path, attempt, result);
    assert(run(fs, uri_path, opened, request, opening(request.encodings, path, attempt)) == run(
        fs,
        uri_path,
        opened,
        request,
        next,
    ));
    match file::fallback(request.encodings, attempt, result) {
        Fallback::Retry { attempt: next } => {
            lemma_run_attempts(fs, uri_path, opened, request, path, next);
        },
        _ => {},
    }
}

/// A request for what lies under a path is answered by the most preferred variant that
/// there is of the file, or of the index of the directory; nothing is served where there
/// is a directory but the path does not end with a slash.
pub proof fn law_path_is_served(
    fs: FileSystem,
    uri_path: Seq<char>,
    opened: bool,
    request: FileRequest,
    path: Seq<Seq<char>>,
)
    requires
        request.encodings.len() <= usize::MAX,
    ensures
        run(fs, uri_path, opened, request, Stage::CheckDirectory { path }) == (match file_to_serve(
            uri_path,
            path,
            (fs.is_dir)(path),
        ) {
            Some(found) => answer(
                fs,
                opened,
                request,
                found,
                file::search_from(fs.open, found, request.encodings, 0),
            ),
            None => None,
        }),
{
    reveal_with_fuel(run, 2);
    match file_to_serve(uri_path, path, (fs.is_dir)(path)) {
        Some(found) => {
            lemma_run_attempts(fs, uri_path, opened, request, found, 0);
        },
        None => {},
    }
}

/// A `HEAD` request is answered with the status and the headers that a `GET` request
/// for the same file is answered with, and unless the range is refused, without a body.
pub proof fn law_head_is_like_get(
    request: FileRequest,
    encoding: Option<Encoding>,
    modified: Option<u64>,
    mime: Seq<char>,
    size: u64,
)
    ensures
        ({
            let get = file_reply(request, true, encoding, modified, mime, size);
            let head = file_reply(request, false, encoding, modified, mime, size);
            &&& head.status == get.status
            &&& head.headers == get.headers
            &&& head.status != 416 ==> head.body == Body::Empty
        }),
{
}

/// Whether two requests for one path, the first a `GET` and the second a `HEAD` request, are
/// answered alike: neither or both of them, with the same status and headers, and unless the
/// range is refused, the second without a body.
pub open spec fn are_alike(get: Option<Reply>, head: Option<Reply>) -> bool {
    match (get, head) {
        (Some(get), Some(head)) => {
            &&& head.status == get.status
            &&& head.headers == get.headers
            &&& head.status != 416 ==> head.body == Body::Empty
        },
        (None, None) => true,
        _ => false,
    }
}

/// A `HEAD` request for what lies under a path is answered like a `GET` request for it, as
/// long as the file system answers both alike and files can be brought to any position.
pub proof fn law_head_path_is_like_get(
    fs: FileSystem,
    base: Seq<Seq<char>>,
    uri_path: Seq<char>,
    request: FileRequest,
    start: Stage,
)
    requires
        request.encodings.len() <= usize::MAX,
        is_start(base, uri_path, start),
        forall|at: u64| #[trigger] (fs.seek)(at),
    ensures
        are_alike(
            run(fs, uri_path, !request::is_metadata_method("GET"@), request, start),
            run(fs, uri_path, !request::is_metadata_method("HEAD"@), request, start),
        ),
{
    reveal_strlit("GET");
    reveal_strlit("HEAD");
    assert("GET"@.len() != "HEAD"@.len());
    match start {
        Stage::CheckDirectory { path } => {
            law_path_is_served(fs, uri_path, true, request, path);
            law_path_is_served(fs, uri_path, false, request, path);
            match file_to_serve(uri_path, path, (fs.is_dir)(path)) {
                Some(found) => {
                    let (encoding, result) = file::search_from(
                        fs.open,
                        found,
                        request.encodings,
                        0,
                    );
                    match result {
                        Ok(meta) => law_head_is_like_get(
                            request,
                            encoding,
                            headers::modified_seconds(meta.modified),
                            media_type::mime_of(file_name(found)),
                            meta.len,
                        ),
                        Err(_) => {},
                    }
                },
                None => {},
            }
        },
        _ => {},
    }
}

/// The range that is served of a file lies in it: it starts at a byte of the file, has at
/// least one byte, and does not go beyond the end.
pub proof fn law_served_range_is_in_the_file(request: FileRequest, size: u64)
    requires
        size > 0,
    ensures
        ranges::single_range(requested_ranges(request, size)) matches Ok(Some(range)) ==> {
            &&& 1 <= range_length(range, size)
            &&& range.start + range_length(range, size) <= size
        },
{
    if request.range is Some {
        lemma_ranges_inside(request.range->0, size);
    }
}

/// Whether there is room for further headers in every response that a stage holds.
pub open spec fn leaves_room(stage: Stage) -> bool {
    match stage {
        Stage::Seek { reply, .. } => at_most(reply.headers, 6),
        Stage::Done { outcome: Some(reply) } => at_most(reply.headers, 6),
        _ => true,
    }
}

/// A response with a file has at most six headers, each other response none.
pub proof fn law_responses_leave_room(
    request: FileRequest,
    opened: bool,
    path: Seq<Seq<char>>,
    attempt: usize,
    result: Result<FileMeta, FileError>,
)
    ensures
        leaves_room(after_attempt(request, opened, path, attempt, result)),
{
    let empty = header_map::HeaderContents::empty();
    assert(at_most(empty, 6));
    match file::fallback(request.encodings, attempt, result) {
        Fallback::Opened { meta, encoding } => {
            let size = meta.len;
            let modified = headers::modified_seconds(meta.modified);
            let mime = media_type::mime_of(file_name(path));
            let asked = ranges::single_range(requested_ranges(request, size));
            let typed = with_header(empty, "content-type"@, mime);
            let plain = with_header(typed, "accept-ranges"@, "bytes"@);
            assert(at_most(empty, 0));
            lemma_one_more(empty, "content-type"@, mime, 0);
            lemma_one_more(typed, "accept-ranges"@, "bytes"@, 1);
            let encoded = file_headers(mime, encoding, None);
            match encoding {
                Some(encoding) => lemma_one_more(plain, "content-encoding"@, encoding.name(), 2),
                None => {},
            }
            assert(at_most(encoded, 3));
            let common = file_headers(mime, encoding, modified);
            match modified {
                Some(seconds) => lemma_one_more(
                    encoded,
                    "last-modified"@,
                    headers::http_date(seconds),
                    3,
                ),
                None => {},
            }
            assert(at_most(common, 4));
            match asked {
                Err(_) => lemma_one_more(common, "content-range"@, unsatisfied_range(size), 4),
                Ok(Some(range)) => {
                    let ranged = with_header(common, "content-range"@, satisfied_range(range, size));
                    lemma_one_more(common, "content-range"@, satisfied_range(range, size), 4);
                    lemma_one_more(
                        ranged,
                        "content-length"@,
                        text::decimal(range_length(range, size)),
                        5,
                    );
                },
                Ok(None) => lemma_one_more(
                    common,
                    "content-length"@,
                    text::decimal(size as nat),
                    4,
                ),
            }
        },
        _ => {},
    }
}

/// Whether no header stands more than once.
pub open spec fn stand_once(headers: header_map::HeaderContents) -> bool {
    forall|name: Seq<char>| (#[trigger] header_map::values_of(headers, name)).len() <= 1
}

proof fn lemma_stand_once(headers: header_map::HeaderContents, name: Seq<char>, text: Seq<char>)
    requires
        stand_once(headers),
        !headers.dom().contains(name),
    ensures
        stand_once(with_header(headers, name, text)),
        with_header(headers, name, text).dom() == headers.dom().insert(name),
{
    let more = with_header(headers, name, text);
    assert(more.dom() =~= headers.dom().insert(name));
    assert forall|other: Seq<char>| (#[trigger] header_map::values_of(more, other)).len() <= 1 by {
        assert(header_map::values_of(headers, other).len() <= 1);
    }
}

/// No header stands more than once in a response with a file.
pub proof fn law_headers_stand_once(
    asked: Result<Option<ByteRange>, ranges::ValidateRangeError>,
    buf_chunk_size: usize,
    opened: bool,
    encoding: Option<Encoding>,
    modified: Option<u64>,
    mime: Seq<char>,
    size: u64,
)
    ensures
        stand_once(
            reply_with(asked, buf_chunk_size, opened, encoding, modified, mime, size).headers,
        ),
{
    reveal_strlit("content-type");
    reveal_strlit("accept-ranges");
    reveal_strlit("content-encoding");
    reveal_strlit("last-modified");
    reveal_strlit("content-range");
    reveal_strlit("content-length");
    assert("content-type"@.len() == 12);
    assert("accept-ranges"@.len() == 13 && "accept-ranges"@[0] == 'a');
    assert("content-encoding"@.len() == 16);
    assert("last-modified"@.len() == 13 && "last-modified"@[0] == 'l');
    assert("content-range"@.len() == 13 && "content-range"@[0] == 'c');
    assert("content-length"@.len() == 14);
    let empty = header_map::HeaderContents::empty();
    let typed = with_header(empty, "content-type"@, mime);
    let plain = with_header(typed, "accept-ranges"@, "bytes"@);
    lemma_stand_once(empty, "content-type"@, mime);
    lemma_stand_once(typed, "accept-ranges"@, "bytes"@);
    let encoded = file_headers(mime, encoding, None);
    match encoding {
        Some(encoding) => lemma_stand_once(plain, "content-encoding"@, encoding.name()),
        None => {},
    }
    match modified {
        Some(seconds) => lemma_stand_once(encoded, "last-modified"@, headers::http_date(seconds)),
        None => {},
    }
    let common = file_headers(mime, encoding, modified);
    match asked {
        Err(_) => lemma_stand_once(common, "content-range"@, unsatisfied_range(size)),
        Ok(Some(range)) => {
            let ranged = with_header(common, "content-range"@, satisfied_range(range, size));
            lemma_stand_once(common, "content-range"@, satisfied_range(range, size));
            lemma_stand_once(
                ranged,
                "content-length"@,
                text::decimal(range_length(range, size)),
            );
        },
        Ok(None) => lemma_stand_once(common, "content-length"@, text::decimal(size as nat)),
    }
}

/// Whether a path leads to something in a directory, by names that lead nowhere else.
pub open spec fn is_below(base: Seq<Seq<char>>, path: Seq<Seq<char>>) -> bool {
    &&& base.len() < path.len()
    &&& base.is_prefix_of(path)
    &&& forall|i: int| base.len() <= i < path.len() ==> path::is_safe_name(#[trigger] path[i])
}

/// No file outside the base directory is opened. Under the base directory lies the file
/// that is served, in whichever encoding, unless the path is that of the base directory
/// and there is no such directory.
pub proof fn law_files_stay_below_the_base(
    base: Seq<Seq<char>>,
    uri_path: Seq<char>,
    path: Seq<Seq<char>>,
    is_dir: bool,
    encoding: Option<Encoding>,
)
    requires
        base.is_prefix_of(path),
        forall|i: int| base.len() <= i < path.len() ==> path::is_safe_name(#[trigger] path[i]),
        base.len() < path.len() || is_dir,
    ensures
        file_to_serve(uri_path, path, is_dir) matches Some(found) ==> is_below(
            base,
            file::variant(found, encoding),
        ),
{
    reveal_strlit("index.html");
    reveal_strlit(".gz");
    reveal_strlit(".br");
    reveal_strlit(".");
    reveal_strlit("..");
    if file_to_serve(uri_path, path, is_dir) is Some {
        let found = file_to_serve(uri_path, path, is_dir)->0;
        assert(is_below(base, found)) by {
            assert(base =~= found.subrange(0, base.len() as int));
            assert forall|i: int| base.len() <= i < found.len() implies path::is_safe_name(
                #[trigger] found[i],
            ) by {
                if i < path.len() {
                    assert(found[i] == path[i]);
                } else {
                    assert(found[i] == "index.html"@);
                }
            }
        }
        let variant = file::variant(found, encoding);
        if encoding matches Some(encoding) && encoding.extension() is Some {
            let extension = encoding->0.extension()->0;
            let name = found.last();
            assert(path::is_safe_name(name));
            assert(variant.last() == name + extension);
            assert(!(name + extension).contains('/')) by {
                assert forall|i: int| 0 <= i < (name + extension).len() implies (name
                    + extension)[i] != '/' by {
                    if i < name.len() {
                        assert((name + extension)[i] == name[i]);
                        assert(name.contains(name[i]));
                    } else {
                        assert((name + extension)[i] == extension[i - name.len()]);
                    }
                }
            }
            assert(path::is_safe_name(variant.last()));
            assert forall|i: int| base.len() <= i < variant.len() implies path::is_safe_name(
                #[trigger] variant[i],
            ) by {
                if i < found.len() - 1 {
                    assert(variant[i] == found[i]);
                }
            }
            assert(base =~= variant.subrange(0, base.len() as int)) by {
                assert forall|i: int| 0 <= i < base.len() implies base[i] == variant[i] by {
                    assert(found.subrange(0, base.len() as int)[i] == found[i]);
                }
            }
        }
    }
}

proof fn lemma_values(
    headers: header_map::HeaderContents,
    name: Seq<char>,
    text: Seq<char>,
    other: Seq<char>,
)
    ensures
        header_map::values_of(with_header(headers, name, text), other) == (if other == name {
            header_map::values_of(headers, name).push(vstd::utf8::encode_utf8(text))
        } else {
            header_map::values_of(headers, other)
        }),
{
}

/// The one value of a header, in a list.
pub open spec fn only(text: Seq<char>) -> Seq<Seq<u8>> {
    seq![vstd::utf8::encode_utf8(text)]
}

proof fn lemma_header_names()
    ensures
        "content-type"@.len() == 12,
        "content-length"@.len() == 14,
        "content-encoding"@.len() == 16,
        "accept-ranges"@.len() == 13 && "accept-ranges"@[0] == 'a',
        "last-modified"@.len() == 13 && "last-modified"@[0] == 'l',
        "content-range"@.len() == 13 && "content-range"@[0] == 'c',
{
    reveal_strlit("content-type");
    reveal_strlit("accept-ranges");
    reveal_strlit("content-encoding");
    reveal_strlit("last-modified");
    reveal_strlit("content-range");
    reveal_strlit("content-length");
}

proof fn lemma_common_values(
    mime: Seq<char>,
    encoding: Option<Encoding>,
    modified: Option<u64>,
    name: Seq<char>,
)
    ensures
        header_map::values_of(file_headers(mime, encoding, modified), name) == (if name
            == "content-type"@ {
            only(mime)
        } else if name == "accept-ranges"@ {
            only("bytes"@)
        } else if name == "content-encoding"@ && encoding == Some(Encoding::Gzip) {
            only("gzip"@)
        } else if name == "content-encoding"@ && encoding == Some(Encoding::Brotli) {
            only("br"@)
        } else if name == "last-modified"@ && modified is Some {
            only(headers::http_date(modified->0))
        } else {
            Seq::empty()
        }),
{
    lemma_header_names();
    let empty = header_map::HeaderContents::empty();
    let typed = with_header(empty, "content-type"@, mime);
    let plain = with_header(typed, "accept-ranges"@, "bytes"@);
    let encoded = file_headers(mime, encoding, None);
    lemma_values(empty, "content-type"@, mime, name);
    lemma_values(typed, "accept-ranges"@, "bytes"@, name);
    match encoding {
        Some(encoding) => lemma_values(plain, "content-encoding"@, encoding.name(), name),
        None => {},
    }
    match modified {
        Some(seconds) => lemma_values(
            encoded,
            "last-modified"@,
            headers::http_date(seconds),
            name,
        ),
        None => {},
    }
    assert(Seq::<Seq<u8>>::empty().push(vstd::utf8::encode_utf8(mime)) =~= only(mime));
    assert(Seq::<Seq<u8>>::empty().push(vstd::utf8::encode_utf8("bytes"@)) =~= only("bytes"@));
    assert(Seq::<Seq<u8>>::empty().push(vstd::utf8::encode_utf8("gzip"@)) =~= only("gzip"@));
    assert(Seq::<Seq<u8>>::empty().push(vstd::utf8::encode_utf8("br"@)) =~= only("br"@));
    if modified is Some {
        let date = headers::http_date(modified->0);
        assert(Seq::<Seq<u8>>::empty().push(vstd::utf8::encode_utf8(date)) =~= only(date));
    }
}

/// Every response with a file names its media type, and that ranges of it can be asked for.
/// It names the encoding exactly where the file was found in one that has an extension of its
/// own, and the time at which it was modified exactly where that is known.
pub proof fn law_file_headers(
    asked: Result<Option<ByteRange>, ranges::ValidateRangeError>,
    buf_chunk_size: usize,
    opened: bool,
    encoding: Option<Encoding>,
    modified: Option<u64>,
    mime: Seq<char>,
    size: u64,
)
    ensures
        ({
            let reply = reply_with(asked, buf_chunk_size, opened, encoding, modified, mime, size);
            let encodings = header_map::values_of(reply.headers, "content-encoding"@);
            let dates = header_map::values_of(reply.headers, "last-modified"@);
            &&& header_map::values_of(reply.headers, "content-type"@) == only(mime)
            &&& header_map::values_of(reply.headers, "accept-ranges"@) == only("bytes"@)
            &&& encoding == Some(Encoding::Gzip) ==> encodings == only("gzip"@)
            &&& encoding == Some(Encoding::Brotli) ==> encodings == only("br"@)
            &&& encoding is None || encoding == Some(Encoding::Identity) ==> encodings.len() == 0
            &&& encodings.len() > 0 <==> (encoding matches Some(encoding)
                && encoding.extension() is Some)
            &&& modified matches Some(seconds) ==> dates == only(headers::http_date(seconds))
            &&& modified is None ==> dates.len() == 0
        }),
{
    lemma_header_names();
    let common = file_headers(mime, encoding, modified);
    let reply = reply_with(asked, buf_chunk_size, opened, encoding, modified, mime, size);
    assert forall|name: Seq<char>|
        name != "content-range"@ && name != "content-length"@ implies #[trigger]
        header_map::values_of(reply.headers, name) == header_map::values_of(common, name) by {
        lemma_reply_values(asked, buf_chunk_size, opened, encoding, modified, mime, size, name);
    }
    lemma_common_values(mime, encoding, modified, "content-type"@);
    lemma_common_values(mime, encoding, modified, "accept-ranges"@);
    lemma_common_values(mime, encoding, modified, "content-encoding"@);
    lemma_common_values(mime, encoding, modified, "last-modified"@);
}

proof fn lemma_reply_values(
    asked: Result<Option<ByteRange>, ranges::ValidateRangeError>,
    buf_chunk_size: usize,
    opened: bool,
    encoding: Option<Encoding>,
    modified: Option<u64>,
    mime: Seq<char>,
    size: u64,
    name: Seq<char>,
)
    ensures
        ({
            let common = file_headers(mime, encoding, modified);
            let reply = reply_with(asked, buf_chunk_size, opened, encoding, modified, mime, size);
            let values = header_map::values_of(reply.headers, name);
            &&& name != "content-range"@ && name != "content-length"@ ==> values
                == header_map::values_of(common, name)
            &&& name == "content-range"@ ==> values == (match asked {
                Err(_) => only(unsatisfied_range(size)),
                Ok(Some(range)) => only(satisfied_range(range, size)),
                Ok(None) => Seq::empty(),
            })
            &&& name == "content-length"@ ==> values == (match asked {
                Err(_) => Seq::empty(),
                Ok(Some(range)) => only(text::decimal(range_length(range, size))),
                Ok(None) => only(text::decimal(size as nat)),
            })
        }),
{
    lemma_header_names();
    let common = file_headers(mime, encoding, modified);
    lemma_common_values(mime, encoding, modified, "content-range"@);
    lemma_common_values(mime, encoding, modified, "content-length"@);
    match asked {
        Err(_) => {
            let shown = unsatisfied_range(size);
            lemma_values(common, "content-range"@, shown, name);
            assert(Seq::<Seq<u8>>::empty().push(vstd::utf8::encode_utf8(shown)) =~= only(shown));
        },
        Ok(Some(range)) => {
            let shown = satisfied_range(range, size);
            let length = text::decimal(range_length(range, size));
            let ranged = with_header(common, "content-range"@, shown);
            lemma_values(common, "content-range"@, shown, name);
            lemma_values(ranged, "content-length"@, length, name);
            lemma_values(common, "content-range"@, shown, "content-length"@);
            assert(Seq::<Seq<u8>>::empty().push(vstd::utf8::encode_utf8(shown)) =~= only(shown));
            assert(Seq::<Seq<u8>>::empty().push(vstd::utf8::encode_utf8(length)) =~= only(length));
        },
        Ok(None) => {
            let length = text::decimal(size as nat);
            lemma_values(common, "content-length"@, length, name);
            assert(Seq::<Seq<u8>>::empty().push(vstd::utf8::encode_utf8(length)) =~= only(length));
        },
    }
}

/// A whole file is sent with status 200 and its size as length, all of it. It has no
/// `Content-Range`. Of a file that was not opened nothing is sent.
pub proof fn law_whole_file_is_sent(
    buf_chunk_size: usize,
    opened: bool,
    encoding: Option<Encoding>,
    modified: Option<u64>,
    mime: Seq<char>,
    size: u64,
)
    ensures
        ({
            let reply = reply_with(
                Ok(None),
                buf_chunk_size,
                opened,
                encoding,
                modified,
                mime,
                size,
            );
            &&& reply.status == 200
            &&& header_map::values_of(reply.headers, "content-length"@) == only(
                text::decimal(size as nat),
            )
            &&& header_map::values_of(reply.headers, "content-range"@).len() == 0
            &&& opened ==> reply.body == (Body::File { capacity: buf_chunk_size, limit: None })
            &&& !opened ==> reply.body == Body::Empty
        }),
{
    lemma_reply_values(
        Ok(None),
        buf_chunk_size,
        opened,
        encoding,
        modified,
        mime,
        size,
        "content-length"@,
    );
    lemma_reply_values(
        Ok(None),
        buf_chunk_size,
        opened,
        encoding,
        modified,
        mime,
        size,
        "content-range"@,
    );
}

/// A range of a file is sent with status 206: as many bytes as lie between its ends, both of
/// them with it, which is also the length that is told, whatever the size of the chunks. The
/// ends are told together with the size of the file. Of an empty file no byte is sent.
pub proof fn law_whole_range_is_sent(
    range: ByteRange,
    buf_chunk_size: usize,
    opened: bool,
    encoding: Option<Encoding>,
    modified: Option<u64>,
    mime: Seq<char>,
    size: u64,
)
    requires
        range.start <= range.end,
        size > 0 ==> range.end < size,
    ensures
        ({
            let reply = reply_with(
                Ok(Some(range)),
                buf_chunk_size,
                opened,
                encoding,
                modified,
                mime,
                size,
            );
            let length = if size > 0 {
                range.end - range.start + 1
            } else {
                0
            };
            &&& reply.status == 206
            &&& header_map::values_of(reply.headers, "content-length"@) == only(
                text::decimal(length as nat),
            )
            &&& header_map::values_of(reply.headers, "content-range"@) == only(
                "bytes "@ + text::decimal(range.start as nat) + "-"@ + text::decimal(
                    range.end as nat,
                ) + "/"@ + text::decimal(size as nat),
            )
            &&& opened ==> reply.body == (Body::File {
                capacity: buf_chunk_size,
                limit: Some(length as u64),
            })
            &&& !opened ==> reply.body == Body::Empty
            &&& seek_target(Ok(Some(range)), true) == Some(range.start)
            &&& seek_target(Ok(Some(range)), false) is None
        }),
{
    lemma_reply_values(
        Ok(Some(range)),
        buf_chunk_size,
        opened,
        encoding,
        modified,
        mime,
        size,
        "content-length"@,
    );
    lemma_reply_values(
        Ok(Some(range)),
        buf_chunk_size,
        opened,
        encoding,
        modified,
        mime,
        size,
        "content-range"@,
    );
}

/// A range that cannot be served is answered with status 416, the size of the file, and a
/// message that says why. Nothing of the file is sent, and no length is told.
pub proof fn law_refused_range_is_explained(
    error: ranges::ValidateRangeError,
    buf_chunk_size: usize,
    opened: bool,
    encoding: Option<Encoding>,
    modified: Option<u64>,
    mime: Seq<char>,
    size: u64,
)
    ensures
        ({
            let reply = reply_with(
                Err(error),
                buf_chunk_size,
                opened,
                encoding,
                modified,
                mime,
                size,
            );
            &&& reply.status == 416
            &&& header_map::values_of(reply.headers, "content-range"@) == only(
                "bytes */"@ + text::decimal(size as nat),
            )
            &&& header_map::values_of(reply.headers, "content-length"@).len() == 0
            &&& reply.body == Body::Bytes(vstd::utf8::encode_utf8(error.text()))
            &&& seek_target(Err(error), opened) is None
        }),
{
    lemma_reply_values(
        Err(error),
        buf_chunk_size,
        opened,
        encoding,
        modified,
        mime,
        size,
        "content-length"@,
    );
    lemma_reply_values(
        Err(error),
        buf_chunk_size,
        opened,
        encoding,
        modified,
        mime,
        size,
        "content-range"@,
    );
}

/// The size of the chunks in which a file is read changes nothing of what is sent.
pub proof fn law_chunks_change_nothing(
    asked: Result<Option<ByteRange>, ranges::ValidateRangeError>,
    one: usize,
    other: usize,
    opened: bool,
    encoding: Option<Encoding>,
    modified: Option<u64>,
    mime: Seq<char>,
    size: u64,
)
    ensures
        ({
            let a = reply_with(asked, one, opened, encoding, modified, mime, size);
            let b = reply_with(asked, other, opened, encoding, modified, mime, size);
            &&& a.status == b.status
            &&& a.headers == b.headers
            &&& a.body is File <==> b.body is File
            &&& a.body !is File ==> a.body == b.body
            &&& a.body is File ==> a.body->limit == b.body->limit && a.body->capacity == one
                && b.body->capacity == other
        }),
{
}

/// No other headers than these stand in a response with a file.
pub proof fn law_no_other_headers(
    asked: Result<Option<ByteRange>, ranges::ValidateRangeError>,
    buf_chunk_size: usize,
    opened: bool,
    encoding: Option<Encoding>,
    modified: Option<u64>,
    mime: Seq<char>,
    size: u64,
    name: Seq<char>,
)
    requires
        name != "content-type"@,
        name != "accept-ranges"@,
        name != "content-encoding"@,
        name != "last-modified"@,
        name != "content-range"@,
        name != "content-length"@,
    ensures
        header_map::values_of(
            reply_with(asked, buf_chunk_size, opened, encoding, modified, mime, size).headers,
            name,
        ).len() == 0,
{
    lemma_reply_values(asked, buf_chunk_size, opened, encoding, modified, mime, size, name);
    lemma_common_values(mime, encoding, modified, name);
}

/// A file that was found is answered by what is known of it: where a condition of the request
/// fails, with 412 or 304 and nothing else; without a range, with the whole file; with one
/// range that can be had, with that range, unless the file cannot be brought to its start,
/// which is an error of the server; with any other range, with a refusal.
pub proof fn law_found_file_is_answered(
    fs: FileSystem,
    opened: bool,
    request: FileRequest,
    directory: Seq<Seq<char>>,
    name: Seq<char>,
    meta: FileMeta,
    encoding: Option<Encoding>,
)
    ensures
        ({
            let reply = answer(fs, opened, request, directory.push(name), (encoding, Ok(meta)));
            let modified = headers::modified_seconds(meta.modified);
            let mime = media_type::mime_of(name);
            let too_new = request.if_unmodified_since is Some && (modified is None || modified->0
                > request.if_unmodified_since->0);
            let known = request.if_modified_since is Some && modified is Some && modified->0
                <= request.if_modified_since->0;
            &&& reply is Some
            &&& too_new ==> reply->0 == response::bare(412)
            &&& !too_new && known ==> reply->0 == response::bare(304)
            &&& !too_new && !known ==> match request.range {
                None => reply->0 == reply_with(
                    Ok(None),
                    request.buf_chunk_size,
                    opened,
                    encoding,
                    modified,
                    mime,
                    meta.len,
                ),
                Some(text) => match ranges::ranges_of(text, meta.len) {
                    Some(found) => if found.len() != 1 {
                        reply->0.status == 416
                    } else if opened && !(fs.seek)(found[0].start) {
                        reply->0 == response::bare(500)
                    } else {
                        reply->0 == reply_with(
                            Ok(Some(found[0])),
                            request.buf_chunk_size,
                            opened,
                            encoding,
                            modified,
                            mime,
                            meta.len,
                        )
                    },
                    None => reply->0.status == 416,
                },
            }
        }),
{
    assert(directory.push(name).last() == name);
}

/// Where no file is found, nothing is served if there is none, and any other error is an
/// error of the server.
pub proof fn law_no_file_is_answered(
    fs: FileSystem,
    opened: bool,
    request: FileRequest,
    path: Seq<Seq<char>>,
    encoding: Option<Encoding>,
    error: FileError,
)
    ensures
        ({
            let reply = answer(fs, opened, request, path, (encoding, Err(error)));
            let missing = error.kind == file::FileErrorKind::NotFound || error.kind
                == file::FileErrorKind::PermissionDenied || error.raw_os_error == Some(20i32);
            &&& missing ==> reply is None
            &&& !missing ==> reply == Some(response::bare(500))
        }),
{
}

/// What a request for a file is answered.
pub open spec fn served(
    fs: FileSystem,
    opened: bool,
    request: FileRequest,
    path: Seq<Seq<char>>,
) -> Option<Reply> {
    answer(fs, opened, request, path, file::search_from(fs.open, path, request.encodings, 0))
}

/// A request for what is no directory is one for the file. A request for a directory is one
/// for the file `index.html` in it if its path ends with a slash, and otherwise leads to
/// nothing.
pub proof fn law_directories_have_an_index(
    fs: FileSystem,
    uri_path: Seq<char>,
    opened: bool,
    request: FileRequest,
    path: Seq<Seq<char>>,
)
    requires
        request.encodings.len() <= usize::MAX,
    ensures
        ({
            let reply = run(fs, uri_path, opened, request, Stage::CheckDirectory { path });
            let slash = uri_path.len() > 0 && uri_path[uri_path.len() - 1] == '/';
            &&& !(fs.is_dir)(path) ==> reply == served(fs, opened, request, path)
            &&& (fs.is_dir)(path) && slash ==> reply == served(
                fs,
                opened,
                request,
                path.push("index.html"@),
            )
            &&& (fs.is_dir)(path) && !slash ==> reply is None
        }),
{
    law_path_is_served(fs, uri_path, opened, request, path);
}

proof fn lemma_search_shifted(
    open: spec_fn(Seq<Seq<char>>) -> Result<FileMeta, FileError>,
    path: Seq<Seq<char>>,
    encodings: Seq<Encoding>,
    attempt: usize,
)
    requires
        attempt < encodings.len() <= usize::MAX,
    ensures
        file::search_from(open, path, encodings, (attempt + 1) as usize) == file::search_from(
            open,
            path,
            encodings.skip(1),
            attempt,
        ),
    decreases encodings.len() - attempt,
{
    let rest = encodings.skip(1);
    let next = (attempt + 1) as usize;
    assert(file::attempted(encodings, next as int) == file::attempted(rest, attempt as int));
    if next < encodings.len() {
        let result = open(file::variant(path, file::attempted(encodings, next as int)));
        if file::is_absent(result) {
            lemma_search_shifted(open, path, encodings, next);
        }
    }
}

/// A variant for which there is no file is as good as not accepted: the request is answered
/// like one that does not accept it.
pub proof fn law_absent_variants_are_skipped(
    fs: FileSystem,
    opened: bool,
    request: FileRequest,
    directory: Seq<Seq<char>>,
    name: Seq<char>,
    error: FileError,
)
    requires
        0 < request.encodings.len() <= usize::MAX,
        error.kind == file::FileErrorKind::NotFound,
        ({
            let candidate = match request.encodings[0] {
                Encoding::Gzip => directory.push(name + ".gz"@),
                Encoding::Brotli => directory.push(name + ".br"@),
                Encoding::Identity => directory.push(name),
            };
            (fs.open)(candidate) == Err::<FileMeta, FileError>(error)
        }),
    ensures
        served(fs, opened, request, directory.push(name)) == served(
            fs,
            opened,
            FileRequest { encodings: request.encodings.skip(1), ..request },
            directory.push(name),
        ),
{
    file::law_variants_lie_beside_the_file(directory, name);
    lemma_search_shifted(fs.open, directory.push(name), request.encodings, 0);
}

/// The variant in the encoding that is preferred is sent where there is a file for it, and is
/// told by the name of the encoding: a file with `.br` behind its name as `br`, one with `.gz`
/// as `gzip`, and the file under its own name as it is.
pub proof fn law_present_variants_are_told(
    fs: FileSystem,
    opened: bool,
    request: FileRequest,
    directory: Seq<Seq<char>>,
    name: Seq<char>,
    meta: FileMeta,
)
    requires
        0 < request.encodings.len() <= usize::MAX,
        ({
            let candidate = match request.encodings[0] {
                Encoding::Gzip => directory.push(name + ".gz"@),
                Encoding::Brotli => directory.push(name + ".br"@),
                Encoding::Identity => directory.push(name),
            };
            (fs.open)(candidate) == Ok::<FileMeta, FileError>(meta)
        }),
        request.if_unmodified_since is None,
        request.if_modified_since is None,
        request.range is None,
    ensures
        ({
            let reply = served(fs, opened, request, directory.push(name));
            let told = header_map::values_of(reply->0.headers, "content-encoding"@);
            &&& reply is Some
            &&& reply->0.status == 200
            &&& header_map::values_of(reply->0.headers, "content-length"@) == only(
                text::decimal(meta.len as nat),
            )
            &&& header_map::values_of(reply->0.headers, "content-type"@) == only(
                media_type::mime_of(name),
            )
            &&& told == (match request.encodings[0] {
                Encoding::Gzip => only("gzip"@),
                Encoding::Brotli => only("br"@),
                Encoding::Identity => Seq::empty(),
            })
        }),
{
    file::law_variants_lie_beside_the_file(directory, name);
    let encoding = Some(request.encodings[0]);
    let modified = headers::modified_seconds(meta.modified);
    let mime = media_type::mime_of(name);
    law_found_file_is_answered(fs, opened, request, directory, name, meta, encoding);
    law_whole_file_is_sent(request.buf_chunk_size, opened, encoding, modified, mime, meta.len);
    law_file_headers(
        Ok(None),
        request.buf_chunk_size,
        opened,
        encoding,
        modified,
        mime,
        meta.len,
    );
}

/// Where no encoding is accepted, or no variant is left, the file as it is decides: it is
/// sent without an encoding, and where there is none, nothing is.
pub proof fn law_file_as_it_is(
    fs: FileSystem,
    opened: bool,
    request: FileRequest,
    directory: Seq<Seq<char>>,
    name: Seq<char>,
)
    requires
        request.encodings.len() == 0,
        request.if_unmodified_since is None,
        request.if_modified_since is None,
        request.range is None,
    ensures
        ({
            let reply = served(fs, opened, request, directory.push(name));
            match (fs.open)(directory.push(name)) {
                Ok(meta) => {
                    &&& reply is Some
                    &&& reply->0.status == 200
                    &&& header_map::values_of(reply->0.headers, "content-length"@) == only(
                        text::decimal(meta.len as nat),
                    )
                    &&& header_map::values_of(reply->0.headers, "content-type"@) == only(
                        media_type::mime_of(name),
                    )
                    &&& header_map::values_of(reply->0.headers, "content-encoding"@).len() == 0
                    &&& opened ==> reply->0.body == (Body::File {
                        capacity: request.buf_chunk_size,
                        limit: None,
                    })
                },
                Err(error) => if error.kind == file::FileErrorKind::NotFound || error.kind
                    == file::FileErrorKind::PermissionDenied || error.raw_os_error == Some(
                    20i32,
                ) {
                    reply is None
                } else {
                    reply == Some(response::bare(500))
                },
            }
        }),
{
    file::law_variants_lie_beside_the_file(directory, name);
    match (fs.open)(directory.push(name)) {
        Ok(meta) => {
            let modified = headers::modified_seconds(meta.modified);
            let mime = media_type::mime_of(name);
            law_found_file_is_answered(fs, opened, request, directory, name, meta, None);
            law_whole_file_is_sent(request.buf_chunk_size, opened, None, modified, mime, meta.len);
            law_file_headers(
                Ok(None),
                request.buf_chunk_size,
                opened,
                None,
                modified,
                mime,
                meta.len,
            );
        },
        Err(error) => {
            law_no_file_is_answered(fs, opened, request, directory.push(name), None, error);
        },
    }
}

/// What a step says is what it holds.
pub proof fn law_steps_say_what_they_hold(step: PathStep)
    ensures
        match step {
            PathStep::CheckDirectory { path } => step@ == (Stage::CheckDirectory { path: path@ }),
            PathStep::OpenFile { path, attempt, candidate } => step@ == (Stage::OpenFile {
                path: path@,
                attempt,
                candidate: candidate.path@,
                encoding: candidate.encoding,
            }),
            PathStep::Seek { start, response } => step@ == (Stage::Seek {
                start,
                reply: response@,
            }),
            PathStep::Done { outcome: Some(response) } => step@ == (Stage::Done {
                outcome: Some(response@),
            }),
            PathStep::Done { outcome: None } => step@ == (Stage::Done { outcome: None }),
        },
{
}

} // verus!

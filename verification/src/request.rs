//! Requests, and what they ask of a file.
use crate::content_encoding::{self, encodings, negotiate, Encoding};
use crate::header_map::{self, get_header, known_name, value_text};
use crate::headers::{self, IfModifiedSince, IfUnmodifiedSince};
use crate::request_uri::{self, RequestUri};
use crate::text::same;
use http::header::HeaderMap;
use vstd::prelude::*;

verus! {

/// How many bytes of a file are read at a time by default: 64 KiB.
pub const DEFAULT_CAPACITY: usize = 65536;

/// How content is served.
#[derive(Debug)]
pub struct ServeSvelteConfig {
    /// The origin under which the server is reached, where it is fixed.
    pub origin: Option<String>,
    /// How many bytes of a file are read at a time.
    pub buf_chunk_size: usize,
}

impl Default for ServeSvelteConfig {
    fn default() -> (config: Self)
        ensures
            config.origin is None,
            config.buf_chunk_size == 65536,
    {
        ServeSvelteConfig { origin: None, buf_chunk_size: DEFAULT_CAPACITY }
    }
}

/// A request without its body.
#[derive(Debug)]
pub struct RequestParts {
    pub method: String,
    pub uri: RequestUri,
    pub headers: HeaderMap,
}

/// What a request asks of a file.
#[derive(Debug)]
pub struct FileRequestOptions {
    pub if_unmodified_since: Option<IfUnmodifiedSince>,
    pub if_modified_since: Option<IfModifiedSince>,
    pub range_header: Option<String>,
    pub negotiated_encodings: Vec<Encoding>,
    pub buf_chunk_size: usize,
}

/// What a request asks of a file, with times in seconds.
pub struct FileRequest {
    pub if_unmodified_since: Option<u64>,
    pub if_modified_since: Option<u64>,
    pub range: Option<Seq<char>>,
    pub encodings: Seq<Encoding>,
    pub buf_chunk_size: usize,
}

impl View for FileRequestOptions {
    type V = FileRequest;

    open spec fn view(&self) -> FileRequest {
        FileRequest {
            if_unmodified_since: headers::if_unmodified_seconds(self.if_unmodified_since),
            if_modified_since: headers::if_modified_seconds(self.if_modified_since),
            range: request_uri::optional_text(self.range_header),
            encodings: self.negotiated_encodings@,
            buf_chunk_size: self.buf_chunk_size,
        }
    }
}

/// The first value under a name, if there is one.
pub open spec fn first_value(
    contents: header_map::HeaderContents,
    name: Seq<char>,
) -> Option<Seq<u8>> {
    let values = header_map::values_of(contents, name);
    if values.len() > 0 {
        Some(values[0])
    } else {
        None
    }
}

/// The text that the first value under a name holds, if there is one and it reads as
/// text.
pub open spec fn first_text(
    contents: header_map::HeaderContents,
    name: Seq<char>,
) -> Option<Seq<char>> {
    match first_value(contents, name) {
        Some(bytes) => if header_map::is_text(bytes) {
            Some(header_map::ascii_chars(bytes))
        } else {
            None
        },
        None => None,
    }
}

/// The date that the first value under a name holds, in seconds since the Unix epoch.
pub open spec fn first_date(
    contents: header_map::HeaderContents,
    name: Seq<char>,
) -> Option<u64> {
    match first_value(contents, name) {
        Some(bytes) => headers::date_in(bytes),
        None => None,
    }
}

/// What headers ask of a file that is read in chunks of this size.
pub open spec fn file_request(headers: HeaderMap, buf_chunk_size: usize) -> FileRequest {
    let contents = header_map::header_values(headers);
    FileRequest {
        if_unmodified_since: first_date(contents, "if-unmodified-since"@),
        if_modified_since: first_date(contents, "if-modified-since"@),
        range: first_text(contents, "range"@),
        encodings: content_encoding::negotiated(content_encoding::accepted_encodings(headers)),
        buf_chunk_size,
    }
}

/// The text of the first value under a name.
pub(crate) fn header_text<'a>(headers: &'a HeaderMap, name: &str) -> (r: Option<&'a str>)
    requires
        header_map::is_plain_name(name@),
    ensures
        match r {
            Some(text) => first_text(header_map::header_values(*headers), name@) == Some(text@),
            None => first_text(header_map::header_values(*headers), name@) is None,
        },
{
    let name = known_name(name);
    match get_header(headers, &name) {
        Some(value) => value_text(value),
        None => None,
    }
}

impl FileRequestOptions {
    /// Reads from the headers of a request what it asks of a file. Values that are not
    /// well formed are ignored.
    pub fn from_parts(parts: &RequestParts, config: &ServeSvelteConfig) -> (options:
        FileRequestOptions)
        ensures
            options@ == file_request(parts.headers, config.buf_chunk_size),
    {
        proof {
            reveal_strlit("if-unmodified-since");
            reveal_strlit("if-modified-since");
            reveal_strlit("range");
        }
        let if_unmodified_since = match get_header(
            &parts.headers,
            &known_name("if-unmodified-since"),
        ) {
            Some(value) => IfUnmodifiedSince::from_header_value(value),
            None => None,
        };
        let if_modified_since = match get_header(&parts.headers, &known_name("if-modified-since")) {
            Some(value) => IfModifiedSince::from_header_value(value),
            None => None,
        };
        let range_header = match header_text(&parts.headers, "range") {
            Some(text) => Some(text.to_owned()),
            None => None,
        };
        let choices = encodings(&parts.headers);
        let negotiated_encodings = negotiate(&choices);
        FileRequestOptions {
            if_unmodified_since,
            if_modified_since,
            range_header,
            negotiated_encodings,
            buf_chunk_size: config.buf_chunk_size,
        }
    }
}

/// Whether a method only reads: `GET` or `HEAD`.
pub open spec fn is_read_method(method: Seq<char>) -> bool {
    method == "GET"@ || method == "HEAD"@
}

/// Whether a request has a body to be read: one that does not only read has.
pub fn has_body(method: &str) -> (r: bool)
    ensures
        r == !is_read_method(method@),
        r <==> method@ != "GET"@ && method@ != "HEAD"@,
{
    !same(method, "GET") && !same(method, "HEAD")
}

/// Whether a method asks for what is known of a file only, and not for what it holds:
/// `HEAD`.
pub open spec fn is_metadata_method(method: Seq<char>) -> bool {
    method == "HEAD"@
}

/// Whether a method asks for what is known of a file only. The file is not opened then.
pub fn reads_metadata_only(method: &str) -> (r: bool)
    ensures
        r == is_metadata_method(method@),
        r <==> method@ == "HEAD"@,
{
    same(method, "HEAD")
}

/// `GET` and `HEAD` are the methods that only read, and `HEAD` alone asks for no content.
pub proof fn law_methods_that_only_read(method: Seq<char>)
    ensures
        is_read_method(method) <==> method == "GET"@ || method == "HEAD"@,
        is_metadata_method(method) <==> method == "HEAD"@,
        is_metadata_method(method) ==> is_read_method(method),
        !is_metadata_method("GET"@),
{
    reveal_strlit("GET");
    reveal_strlit("HEAD");
    assert("GET"@.len() != "HEAD"@.len());
}

/// Of each header that says something about a file, the first value counts: a date as the
/// date parser reads it, a range as it stands. What does not read as text, or as a date, is
/// as good as absent. All values of `Accept-Encoding` count.
pub proof fn law_first_values_count(headers: HeaderMap, buf_chunk_size: usize)
    ensures
        ({
            let contents = header_map::header_values(headers);
            let request = file_request(headers, buf_chunk_size);
            let range = header_map::values_of(contents, "range"@);
            let modified = header_map::values_of(contents, "if-modified-since"@);
            let unmodified = header_map::values_of(contents, "if-unmodified-since"@);
            &&& range.len() == 0 ==> request.range is None
            &&& range.len() > 0 && header_map::is_text(range[0]) ==> request.range == Some(
                header_map::ascii_chars(range[0]),
            )
            &&& range.len() > 0 && !header_map::is_text(range[0]) ==> request.range is None
            &&& modified.len() == 0 ==> request.if_modified_since is None
            &&& modified.len() > 0 && vstd::utf8::valid_utf8(modified[0])
                ==> request.if_modified_since == headers::http_date_seconds(
                vstd::utf8::decode_utf8(modified[0]),
            )
            &&& modified.len() > 0 && !vstd::utf8::valid_utf8(modified[0])
                ==> request.if_modified_since is None
            &&& unmodified.len() == 0 ==> request.if_unmodified_since is None
            &&& unmodified.len() > 0 && vstd::utf8::valid_utf8(unmodified[0])
                ==> request.if_unmodified_since == headers::http_date_seconds(
                vstd::utf8::decode_utf8(unmodified[0]),
            )
            &&& unmodified.len() > 0 && !vstd::utf8::valid_utf8(unmodified[0])
                ==> request.if_unmodified_since is None
            &&& request.encodings == content_encoding::negotiated(
                content_encoding::accepted_by(
                    header_map::values_of(contents, "accept-encoding"@),
                ),
            )
            &&& request.buf_chunk_size == buf_chunk_size
        }),
{
}

/// What options say is what they hold.
pub proof fn law_options_say_what_they_hold(options: FileRequestOptions)
    ensures
        options@.if_unmodified_since == headers::if_unmodified_seconds(options.if_unmodified_since),
        options@.if_modified_since == headers::if_modified_seconds(options.if_modified_since),
        options.if_unmodified_since is None <==> options@.if_unmodified_since is None,
        options.if_modified_since is None <==> options@.if_modified_since is None,
        options.range_header is None ==> options@.range is None,
        options.range_header matches Some(text) ==> options@.range == Some(text@),
        options@.encodings == options.negotiated_encodings@,
        options@.buf_chunk_size == options.buf_chunk_size,
{
}

} // verus!

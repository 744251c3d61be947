//! The URI of a request.

use crate::text::{self, concat};
use http::uri::{InvalidUri, PathAndQuery};
use vstd::prelude::*;
use vstd::string::StringExecFns;

verus! {

/// The error of text that is no part of a URI, held as an opaque value.
#[verifier::external_type_specification]
#[verifier::external_body]
pub struct ExInvalidUri(http::uri::InvalidUri);

/// The URI of a request, in its parts.
#[derive(Debug)]
pub struct RequestUri {
    pub scheme: Option<String>,
    pub authority: Option<String>,
    /// The path; empty where the URI has none.
    pub path: String,
    pub query: Option<String>,
}

/// The parts of a URI.
pub struct UriParts {
    pub scheme: Option<Seq<char>>,
    pub authority: Option<Seq<char>>,
    pub path: Seq<char>,
    pub query: Option<Seq<char>>,
}

/// The characters of an optional string.
pub open spec fn optional_text(s: Option<String>) -> Option<Seq<char>> {
    match s {
        Some(s) => Some(s@),
        None => None,
    }
}

impl View for RequestUri {
    type V = UriParts;

    open spec fn view(&self) -> UriParts {
        UriParts {
            scheme: optional_text(self.scheme),
            authority: optional_text(self.authority),
            path: self.path@,
            query: optional_text(self.query),
        }
    }
}

/// A character that can stand in the path of a URI.
pub open spec fn is_path_char(c: char) -> bool {
    let code = c as u32;
    ||| code == 0x21 || code == 0x22 || code == 0x3D
    ||| 0x24 <= code <= 0x3B
    ||| 0x40 <= code <= 0x5F
    ||| 0x61 <= code
}

/// A character that can stand in the query of a URI.
pub open spec fn is_query_char(c: char) -> bool {
    let code = c as u32;
    ||| code == 0x21 || code == 0x3D
    ||| 0x24 <= code <= 0x3B
    ||| 0x3F <= code
}

/// Whether text can stand as the path of a URI.
pub open spec fn is_path(path: Seq<char>) -> bool {
    forall|i: int| 0 <= i < path.len() ==> is_path_char(#[trigger] path[i])
}

/// Whether text can stand as the query of a URI.
pub open spec fn is_query(query: Seq<char>) -> bool {
    forall|i: int| 0 <= i < query.len() ==> is_query_char(#[trigger] query[i])
}

/// The path, and the query behind its question mark.
pub open spec fn path_and_query(path: Seq<char>, query: Option<Seq<char>>) -> Seq<char> {
    match query {
        Some(query) => path + seq!['?'] + query,
        None => path,
    }
}

impl UriParts {
    /// The parts of an actual URI. A query stands only behind a path, and what the URI
    /// holds can stand in one; its length is limited.
    pub open spec fn wf(self) -> bool {
        &&& is_path(self.path)
        &&& self.query matches Some(query) ==> is_query(query) && self.path.len() > 0
        &&& vstd::utf8::encode_utf8(path_and_query(self.path + seq!['/'], self.query)).len() <= 65535
    }

    /// The text of the URI.
    pub open spec fn text(self) -> Seq<char> {
        (match self.scheme {
            Some(scheme) => scheme + "://"@,
            None => Seq::empty(),
        }) + (match self.authority {
            Some(authority) => authority,
            None => Seq::empty(),
        }) + path_and_query(self.path, self.query)
    }
}

/// The path and the query that text stands for, if it is well formed. Whatever follows
/// a number sign is dropped, and an empty path is taken for the root.
pub open spec fn parsed_path_and_query(source: Seq<char>) -> Option<(Seq<char>, Option<Seq<char>>)> {
    let kept = text::before(source, '#');
    let path = text::before(kept, '?');
    let query = text::after(kept, '?');
    if is_path(path) && (query matches Some(query) ==> is_query(query)) {
        Some((if path.len() == 0 { seq!['/'] } else { path }, query))
    } else {
        None
    }
}

/// Calls `PathAndQuery::try_from`, and takes the path and the query out of its result. The
/// crate keeps the position of the query in 16 bits, so that a query must not start beyond
/// the 65535th byte.
#[verifier::external_body]
fn parse_path_and_query(source: &str) -> (r: Result<(String, Option<String>), InvalidUri>)
    requires
        vstd::utf8::encode_utf8(source@).len() <= 65535 || !source@.contains('?'),
    ensures
        match r {
            Ok(parsed) => parsed_path_and_query(source@) == Some(
                (parsed.0@, optional_text(parsed.1)),
            ),
            Err(_) => parsed_path_and_query(source@) is None,
        },
{
    let parsed = PathAndQuery::try_from(source)?;
    Ok((parsed.path().to_owned(), parsed.query().map(|query| query.to_owned())))
}

/// A path with the query behind it is read back as the two.
proof fn lemma_read_back(path: Seq<char>, query: Option<Seq<char>>)
    requires
        path.len() > 0,
        is_path(path),
        query matches Some(query) ==> is_query(query),
    ensures
        parsed_path_and_query(path_and_query(path, query)) == Some((path, query)),
        query is None ==> !path_and_query(path, query).contains('?'),
{
    let source = path_and_query(path, query);
    assert forall|i: int| 0 <= i < source.len() implies source[i] != '#' by {
        if i < path.len() {
            assert(source[i] == path[i]);
            assert(is_path_char(path[i]));
        } else if i > path.len() {
            assert(source[i] == query->0[i - path.len() - 1]);
            assert(is_query_char(query->0[i - path.len() - 1]));
        }
    }
    text::lemma_position(source, '#', source.len() as int);
    assert(text::before(source, '#') == source);
    assert forall|i: int| 0 <= i < path.len() implies source[i] != '?' by {
        assert(source[i] == path[i]);
        assert(is_path_char(path[i]));
    }
    text::lemma_position(source, '?', path.len() as int);
    assert(text::before(source, '?') == path);
    if query is Some {
        assert(source.skip(path.len() as int + 1) == query->0);
    }
}

fn copy_optional(s: &Option<String>) -> (r: Option<String>)
    ensures
        optional_text(r) == optional_text(*s),
{
    match s {
        Some(s) => Some(s.clone()),
        None => None,
    }
}

impl RequestUri {
    /// The text of the URI.
    pub fn to_text(&self) -> (r: String)
        ensures
            r@ == self@.text(),
    {
        let mut r = String::new();
        if let Some(scheme) = &self.scheme {
            r.append(scheme.as_str());
            r.append("://");
        }
        if let Some(authority) = &self.authority {
            r.append(authority.as_str());
        }
        r.append(self.path.as_str());
        if let Some(query) = &self.query {
            r.push('?');
            r.append(query.as_str());
        }
        assert(r@ =~= self@.text());
        r
    }

    /// A URI that consists of a path and an optional query, read from text. There is
    /// none where the text is not well formed.
    pub fn from_path_and_query(source: &str) -> (r: Option<RequestUri>)
        requires
            vstd::utf8::encode_utf8(source@).len() <= 65535 || !source@.contains('?'),
        ensures
            match r {
                Some(uri) => {
                    &&& uri@.scheme is None
                    &&& uri@.authority is None
                    &&& parsed_path_and_query(source@) == Some((uri@.path, uri@.query))
                },
                None => parsed_path_and_query(source@) is None,
            },
    {
        match parse_path_and_query(source) {
            Ok((path, query)) => Some(RequestUri { scheme: None, authority: None, path, query }),
            Err(_) => None,
        }
    }

    /// The URI with a slash at the end of its path. There is none where the URI has an
    /// authority but no scheme, or a scheme but no authority.
    pub fn with_slash(&self) -> (r: Option<RequestUri>)
        requires
            self@.wf(),
        ensures
            match r {
                Some(uri) => {
                    &&& self.scheme is Some == self.authority is Some
                    &&& uri@ == (UriParts { path: self@.path + seq!['/'], ..self@ })
                },
                None => self.scheme is Some != self.authority is Some,
            },
    {
        let mut source = self.path.clone();
        source.push('/');
        let ghost path = self@.path + seq!['/'];
        assert(source@ == path);
        if let Some(query) = &self.query {
            source.push('?');
            source.append(query.as_str());
        }
        proof {
            assert(source@ =~= path_and_query(path, self@.query));
            assert forall|i: int| 0 <= i < path.len() implies is_path_char(#[trigger] path[i]) by {
                if i < self@.path.len() {
                    assert(path[i] == self@.path[i]);
                }
            }
            lemma_read_back(path, self@.query);
        }
        let (path, query) = match parse_path_and_query(source.as_str()) {
            Ok(parsed) => parsed,
            Err(_) => {
                return None;
            },
        };
        if self.scheme.is_some() != self.authority.is_some() {
            return None;
        }
        Some(
            RequestUri {
                scheme: copy_optional(&self.scheme),
                authority: copy_optional(&self.authority),
                path,
                query,
            },
        )
    }
}

/// The path of a page that was rendered ahead: the path of the request without a slash
/// at its end, and with `.html` instead.
pub open spec fn html_path(path: Seq<char>) -> Seq<char> {
    text::strip_end(path, '/') + ".html"@
}

/// The URI of the page that was rendered ahead for a path.
pub fn html_uri(request_path: &str) -> (uri: RequestUri)
    requires
        is_path(request_path@),
    ensures
        uri@ == (UriParts {
            scheme: None,
            authority: None,
            path: html_path(request_path@),
            query: None,
        }),
{
    let path = concat(text::strip_end_char(request_path, '/').as_str(), ".html");
    proof {
        reveal_strlit(".html");
        let start = text::strip_end(request_path@, '/');
        assert forall|i: int| 0 <= i < path@.len() implies is_path_char(#[trigger] path@[i]) by {
            if i < start.len() {
                assert(path@[i] == request_path@[i]);
            } else {
                assert(path@[i] == ".html"@[i - start.len()]);
            }
        }
        lemma_read_back(path@, None);
        assert(path_and_query(path@, None) == path@);
    }
    match RequestUri::from_path_and_query(path.as_str()) {
        Some(uri) => uri,
        None => vstd::pervasive::unreached(),
    }
}

/// A URI is written as its scheme with `://` behind it, its authority, its path, and its
/// query behind a question mark, each where there is one.
pub proof fn law_uris_are_written_in_order(
    scheme: Seq<char>,
    authority: Seq<char>,
    path: Seq<char>,
    query: Seq<char>,
)
    ensures
        (UriParts { scheme: None, authority: None, path, query: None }).text() == path,
        (UriParts { scheme: None, authority: None, path, query: Some(query) }).text() == path
            + "?"@ + query,
        (UriParts { scheme: None, authority: Some(authority), path, query: None }).text()
            == authority + path,
        (UriParts {
            scheme: Some(scheme),
            authority: Some(authority),
            path,
            query: None,
        }).text() == scheme + "://"@ + authority + path,
        (UriParts {
            scheme: Some(scheme),
            authority: Some(authority),
            path,
            query: Some(query),
        }).text() == scheme + "://"@ + authority + path + "?"@ + query,
{
    reveal_strlit("?");
    assert("?"@ =~= seq!['?']);
    let empty = Seq::<char>::empty();
    assert(empty + empty + path =~= path);
    assert(empty + empty + (path + seq!['?'] + query) =~= path + seq!['?'] + query);
    assert(empty + authority + path =~= authority + path);
    assert(scheme + "://"@ + authority + (path + seq!['?'] + query) =~= scheme + "://"@ + authority
        + path + seq!['?'] + query);
}

/// A page that was rendered ahead is found under the path with `.html` behind it, whether or
/// not the path of the request has a slash at its end.
pub proof fn law_pages_are_html_files(path: Seq<char>)
    requires
        path.len() == 0 || path.last() != '/',
    ensures
        html_path(path) == path + ".html"@,
        html_path(path.push('/')) == path + ".html"@,
{
    text::law_stripped_end(path, '/');
}

/// The parts of a URI are what it holds.
pub proof fn law_uris_say_what_they_hold(uri: RequestUri)
    ensures
        uri@.path == uri.path@,
        uri.scheme is None ==> uri@.scheme is None,
        uri.scheme matches Some(scheme) ==> uri@.scheme == Some(scheme@),
        uri.authority is None ==> uri@.authority is None,
        uri.authority matches Some(authority) ==> uri@.authority == Some(authority@),
        uri.query is None ==> uri@.query is None,
        uri.query matches Some(query) ==> uri@.query == Some(query@),
{
}

} // verus!

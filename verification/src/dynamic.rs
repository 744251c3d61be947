//! Requests that are handed to the app, and the responses that it gives.
use crate::header_map::{
    self, append_header, header_pairs, new_headers, parse_name, value_text,
};
use crate::request::{self, header_text, RequestParts, ServeSvelteConfig};
use crate::request_uri;
use crate::response::{body_from_bytes, Body, Response};
use crate::text::concat;
use http::header::{HeaderMap, HeaderValue};
use http::status::{InvalidStatusCode, StatusCode};
use vstd::prelude::*;

verus! {

/// The error of a number that is no status code, held as an opaque value.
#[verifier::external_type_specification]
#[verifier::external_body]
pub struct ExInvalidStatusCode(http::status::InvalidStatusCode);

/// A request for the app.
#[derive(Debug)]
pub struct HttpRequest {
    pub url: String,
    pub method: String,
    pub headers: Vec<(String, String)>,
    pub body: Option<Vec<u8>>,
}

/// A response of the app.
#[derive(Debug)]
pub struct HttpResponse {
    pub status: u16,
    pub headers: Vec<(String, String)>,
    pub body: Vec<u8>,
}

/// The characters of pairs of a name and a value.
pub open spec fn text_pairs(pairs: Seq<(String, String)>) -> Seq<(Seq<char>, Seq<char>)> {
    pairs.map_values(|pair: (String, String)| (pair.0@, pair.1@))
}

/// What a request says.
pub struct Question {
    pub url: Seq<char>,
    pub method: Seq<char>,
    pub headers: Seq<(Seq<char>, Seq<char>)>,
    pub body: Option<Seq<u8>>,
}

impl View for HttpRequest {
    type V = Question;

    open spec fn view(&self) -> Question {
        Question {
            url: self.url@,
            method: self.method@,
            headers: text_pairs(self.headers@),
            body: match self.body {
                Some(body) => Some(body@),
                None => None,
            },
        }
    }
}

/// The origin that a request names, if it names one in text.
pub fn get_request_origin(headers: &HeaderMap) -> (origin: Option<&str>)
    ensures
        match origin {
            Some(origin) => request::first_text(header_map::header_values(*headers), "origin"@)
                == Some(origin@),
            None => request::first_text(header_map::header_values(*headers), "origin"@) is None,
        },
{
    proof {
        reveal_strlit("origin");
    }
    header_text(headers, "origin")
}

/// The URL of a request: the origin, which is the configured one, or else the one that
/// the request names, with the URI of the request behind it.
pub open spec fn request_url(
    parts: RequestParts,
    config: ServeSvelteConfig,
) -> Option<Seq<char>> {
    match config.origin {
        Some(origin) => Some(origin@ + parts.uri@.text()),
        None => match request::first_text(header_map::header_values(parts.headers), "origin"@) {
            Some(origin) => Some(origin + parts.uri@.text()),
            None => None,
        },
    }
}

/// Creates the URL of a request. There is none where the origin is neither configured nor
/// named by the request.
pub fn get_request_url(parts: &RequestParts, config: &ServeSvelteConfig) -> (url: Option<String>)
    ensures
        request_uri::optional_text(url) == request_url(*parts, *config),
{
    let uri = parts.uri.to_text();
    match &config.origin {
        Some(origin) => Some(concat(origin.as_str(), uri.as_str())),
        None => match get_request_origin(&parts.headers) {
            Some(origin) => Some(concat(origin, uri.as_str())),
            None => None,
        },
    }
}

/// Pairs with their values as text, if all of them read as text.
pub open spec fn values_as_text(pairs: Seq<(Seq<char>, Seq<u8>)>) -> Option<
    Seq<(Seq<char>, Seq<char>)>,
> {
    if forall|i: int| 0 <= i < pairs.len() ==> header_map::is_text((#[trigger] pairs[i]).1) {
        Some(
            pairs.map_values(
                |pair: (Seq<char>, Seq<u8>)| (pair.0, header_map::ascii_chars(pair.1)),
            ),
        )
    } else {
        None
    }
}

/// The error of a request with a header whose value does not read as text.
#[derive(Copy, Clone, Debug, PartialEq, Eq, Structural)]
pub struct NotText;

/// Takes the values of headers as text, in the order in which the headers come.
pub fn headers_as_text(pairs: &Vec<(String, HeaderValue)>) -> (r: Result<
    Vec<(String, String)>,
    NotText,
>)
    ensures
        match r {
            Ok(texts) => values_as_text(header_map::pairs_view(pairs@)) == Some(
                text_pairs(texts@),
            ),
            Err(_) => values_as_text(header_map::pairs_view(pairs@)) is None,
        },
{
    let ghost all = header_map::pairs_view(pairs@);
    let mut texts: Vec<(String, String)> = Vec::new();
    let mut at: usize = 0;
    while at < pairs.len()
        invariant
            at <= pairs.len(),
            all == header_map::pairs_view(pairs@),
            values_as_text(all.take(at as int)) == Some(text_pairs(texts@)),
        decreases pairs.len() - at,
    {
        let value = match value_text(&pairs[at].1) {
            Some(value) => value,
            None => {
                assert(all[at as int].1 == header_map::value_bytes(pairs@[at as int].1));
                return Err(NotText);
            },
        };
        let ghost before = texts@;
        texts.push((pairs[at].0.clone(), value.to_owned()));
        proof {
            let seen = all.take(at as int);
            let more = all.take(at + 1);
            assert(more =~= seen.push(all[at as int]));
            assert forall|i: int| 0 <= i < more.len() implies header_map::is_text(
                (#[trigger] more[i]).1,
            ) by {
                if i < at {
                    assert(more[i] == seen[i]);
                }
            }
            assert(text_pairs(texts@) =~= text_pairs(before).push(
                (pairs@[at as int].0@, header_map::ascii_chars(all[at as int].1)),
            ));
            assert(values_as_text(more)->0 =~= values_as_text(seen)->0.push(
                (all[at as int].0, header_map::ascii_chars(all[at as int].1)),
            ));
        }
        at = at + 1;
    }
    assert(all.take(at as int) =~= all);
    Ok(texts)
}

/// Whether all values of headers read as text.
pub open spec fn all_text(headers: header_map::HeaderContents) -> bool {
    forall|name: Seq<char>, i: int|
        0 <= i < header_map::values_of(headers, name).len() ==> header_map::is_text(
            #[trigger] header_map::values_of(headers, name)[i],
        )
}

/// Whether a pair of texts has this name.
pub open spec fn has_name(name: Seq<char>) -> spec_fn((Seq<char>, Seq<char>)) -> bool {
    |pair: (Seq<char>, Seq<char>)| pair.0 == name
}

/// The values that stand beside a name in a list of pairs of texts, in order.
pub open spec fn listed_texts(
    pairs: Seq<(Seq<char>, Seq<char>)>,
    name: Seq<char>,
) -> Seq<Seq<char>> {
    pairs.filter(has_name(name)).map_values(
        |pair: (Seq<char>, Seq<char>)| pair.1,
    )
}

/// The values of a header as text.
pub open spec fn header_texts(headers: header_map::HeaderContents, name: Seq<char>) -> Seq<
    Seq<char>,
> {
    header_map::values_of(headers, name).map_values(
        |value: Seq<u8>| header_map::ascii_chars(value),
    )
}

proof fn lemma_listed(pairs: Seq<(Seq<char>, Seq<u8>)>, i: int)
    requires
        0 <= i < pairs.len(),
    ensures
        header_map::listed_values(pairs, pairs[i].0).contains(pairs[i].1),
{
    let name = pairs[i].0;
    let named = header_map::is_named(name);
    pairs.lemma_filter_contains(named, i);
    let kept = pairs.filter(named);
    let at = choose|at: int| 0 <= at < kept.len() && kept[at] == pairs[i];
    assert(header_map::listed_values(pairs, name)[at] == pairs[i].1);
}

proof fn lemma_listed_rev(pairs: Seq<(Seq<char>, Seq<u8>)>, name: Seq<char>, at: int)
    requires
        0 <= at < header_map::listed_values(pairs, name).len(),
    ensures
        exists|i: int|
            0 <= i < pairs.len() && (#[trigger] pairs[i]).1 == header_map::listed_values(
                pairs,
                name,
            )[at],
{
    let named = header_map::is_named(name);
    let kept = pairs.filter(named);
    assert(kept.contains(kept[at]));
    pairs.lemma_filter_contains_rev(named, kept[at]);
    let i = choose|i: int| 0 <= i < pairs.len() && pairs[i] == kept[at];
    assert(pairs[i].1 == header_map::listed_values(pairs, name)[at]);
}

proof fn lemma_listed_texts(
    pairs: Seq<(Seq<char>, Seq<u8>)>,
    texts: Seq<(Seq<char>, Seq<char>)>,
    name: Seq<char>,
)
    requires
        texts == pairs.map_values(
            |pair: (Seq<char>, Seq<u8>)| (pair.0, header_map::ascii_chars(pair.1)),
        ),
    ensures
        listed_texts(texts, name) == header_map::listed_values(pairs, name).map_values(
            |value: Seq<u8>| header_map::ascii_chars(value),
        ),
    decreases pairs.len(),
{
    reveal(Seq::filter);
    if pairs.len() > 0 {
        let front = pairs.drop_last();
        assert(texts.drop_last() =~= front.map_values(
            |pair: (Seq<char>, Seq<u8>)| (pair.0, header_map::ascii_chars(pair.1)),
        ));
        lemma_listed_texts(front, texts.drop_last(), name);
        let value = header_map::listed_values(front, name);
        let last = pairs.last();
        assert(header_map::listed_values(pairs, name) =~= if last.0 == name {
            value.push(last.1)
        } else {
            value
        });
        let text = listed_texts(texts.drop_last(), name);
        assert(listed_texts(texts, name) =~= if last.0 == name {
            text.push(header_map::ascii_chars(last.1))
        } else {
            text
        });
    }
    assert(listed_texts(texts, name) =~= header_map::listed_values(pairs, name).map_values(
        |value: Seq<u8>| header_map::ascii_chars(value),
    ));
}

/// Translates a request into one for the app, as yet without its body. Every header comes
/// with all of its values; in which order the names come is left open. A header whose
/// value does not read as text is an error.
pub fn create_dynamic_request(parts: &RequestParts, url: String) -> (r: Result<
    HttpRequest,
    NotText,
>)
    ensures
        match r {
            Ok(request) => {
                &&& all_text(header_map::header_values(parts.headers))
                &&& request@.url == url@
                &&& request@.method == parts.method@
                &&& request@.body is None
                &&& forall|name: Seq<char>|
                    #[trigger] listed_texts(request@.headers, name) == header_texts(
                        header_map::header_values(parts.headers),
                        name,
                    )
            },
            Err(_) => !all_text(header_map::header_values(parts.headers)),
        },
{
    let pairs = header_pairs(&parts.headers);
    let ghost contents = header_map::header_values(parts.headers);
    let ghost all = header_map::pairs_view(pairs@);
    match headers_as_text(&pairs) {
        Ok(headers) => {
            proof {
                assert forall|name: Seq<char>, at: int|
                    0 <= at < header_map::values_of(
                        contents,
                        name,
                    ).len() implies header_map::is_text(
                    #[trigger] header_map::values_of(contents, name)[at],
                ) by {
                    assert(header_map::listed_values(all, name) == header_map::values_of(
                        contents,
                        name,
                    ));
                    lemma_listed_rev(all, name, at);
                }
                assert forall|name: Seq<char>|
                    #[trigger] listed_texts(text_pairs(headers@), name) == header_texts(
                        contents,
                        name,
                    ) by {
                    assert(header_map::listed_values(all, name) == header_map::values_of(
                        contents,
                        name,
                    ));
                    lemma_listed_texts(all, text_pairs(headers@), name);
                }
            }
            Ok(HttpRequest { url, method: parts.method.clone(), headers, body: None })
        },
        Err(error) => {
            proof {
                let i = choose|i: int|
                    0 <= i < all.len() && !header_map::is_text((#[trigger] all[i]).1);
                let name = all[i].0;
                lemma_listed(all, i);
                let listed = header_map::listed_values(all, name);
                assert(listed == header_map::values_of(contents, name));
                let at = choose|at: int| 0 <= at < listed.len() && listed[at] == all[i].1;
                assert(!header_map::is_text(header_map::values_of(contents, name)[at]));
            }
            Err(error)
        },
    }
}

/// Whether a number is a status code.
pub open spec fn is_status(status: u16) -> bool {
    100 <= status < 1000
}

/// Calls `StatusCode::from_u16`, which takes the numbers from 100 up to 999 as they are,
/// and refuses all others.
#[verifier::external_body]
fn status_code(status: u16) -> (r: Result<u16, InvalidStatusCode>)
    ensures
        match r {
            Ok(code) => is_status(status) && code == status,
            Err(_) => !is_status(status),
        },
{
    StatusCode::from_u16(status).map(|code| code.as_u16())
}

/// Why a response of the app cannot be sent.
#[derive(Copy, Clone, Debug, PartialEq, Eq, Structural)]
pub enum ResponseError {
    InvalidStatus,
    InvalidHeaderName,
    InvalidHeaderValue,
    TooManyHeaders,
}

/// The headers that names and values make up, or what is wrong with the first pair that
/// is no header.
pub open spec fn built_headers(pairs: Seq<(Seq<char>, Seq<char>)>) -> Result<
    header_map::HeaderContents,
    ResponseError,
>
    decreases pairs.len(),
{
    if pairs.len() == 0 {
        Ok(header_map::HeaderContents::empty())
    } else {
        match built_headers(pairs.drop_last()) {
            Err(error) => Err(error),
            Ok(headers) => match header_map::canonical_name(pairs.last().0) {
                None => Err(ResponseError::InvalidHeaderName),
                Some(name) => if header_map::is_value_text(pairs.last().1) {
                    Ok(
                        header_map::appended(
                            headers,
                            name,
                            vstd::utf8::encode_utf8(pairs.last().1),
                        ),
                    )
                } else {
                    Err(ResponseError::InvalidHeaderValue)
                },
            },
        }
    }
}

/// What is wrong with the first pairs is wrong with all of them.
proof fn lemma_first_error(pairs: Seq<(Seq<char>, Seq<char>)>, n: int)
    requires
        0 <= n <= pairs.len(),
        built_headers(pairs.take(n)) is Err,
    ensures
        built_headers(pairs) == built_headers(pairs.take(n)),
    decreases pairs.len() - n,
{
    if n < pairs.len() {
        assert(pairs.take(n + 1).drop_last() =~= pairs.take(n));
        lemma_first_error(pairs, n + 1);
    } else {
        assert(pairs.take(n) =~= pairs);
    }
}

/// Whether pairs make up headers with so many different names that they may not fit into a
/// header map.
pub open spec fn has_many_names(pairs: Seq<(Seq<char>, Seq<char>)>) -> bool {
    built_headers(pairs) matches Ok(headers) && headers.dom().len() >= 6554
}

/// Converts a response of the app into one that can be sent. An invalid status is an
/// error, and so is the first header that is not valid; a response with only valid headers
/// can still have too many different ones. At which number from 6554 on that happens
/// depends on how the names are hashed, and is left open.
pub fn create_dynamic_response(response: HttpResponse) -> (r: Result<Response, ResponseError>)
    ensures
        match r {
            Ok(converted) => {
                &&& is_status(response.status)
                &&& built_headers(text_pairs(response.headers@)) == Ok::<_, ResponseError>(
                    converted@.headers,
                )
                &&& converted@.status == response.status
                &&& converted@.body == Body::Bytes(response.body@)
            },
            Err(ResponseError::InvalidStatus) => !is_status(response.status),
            Err(ResponseError::TooManyHeaders) => {
                &&& is_status(response.status)
                &&& has_many_names(text_pairs(response.headers@))
            },
            Err(error) => {
                &&& is_status(response.status)
                &&& built_headers(text_pairs(response.headers@)) == Err::<
                    header_map::HeaderContents,
                    _,
                >(error)
            },
        },
{
    let status = match status_code(response.status) {
        Ok(status) => status,
        Err(_) => {
            return Err(ResponseError::InvalidStatus);
        },
    };
    let ghost pairs = text_pairs(response.headers@);
    let mut headers = new_headers();
    let mut full = false;
    let mut at: usize = 0;
    assert(pairs.take(0) =~= Seq::<(Seq<char>, Seq<char>)>::empty());
    while at < response.headers.len()
        invariant
            at <= response.headers.len(),
            pairs == text_pairs(response.headers@),
            is_status(response.status),
            built_headers(pairs.take(at as int)) is Ok,
            built_headers(pairs.take(at as int))->Ok_0.dom().finite(),
            full ==> has_many_names(pairs.take(at as int)),
            !full ==> header_map::header_values(headers) == built_headers(
                pairs.take(at as int),
            )->Ok_0,
        decreases response.headers.len() - at,
    {
        let ghost more = pairs.take(at + 1);
        proof {
            assert(more.drop_last() =~= pairs.take(at as int));
            assert(more.last() == (response.headers@[at as int].0@, response.headers@[at as int].1@));
        }
        let name = match parse_name(response.headers[at].0.as_str()) {
            Ok(name) => name,
            Err(_) => {
                proof {
                    lemma_first_error(pairs, at + 1);
                }
                return Err(ResponseError::InvalidHeaderName);
            },
        };
        let value = match HeaderValue::from_str(response.headers[at].1.as_str()) {
            Ok(value) => value,
            Err(_) => {
                proof {
                    lemma_first_error(pairs, at + 1);
                }
                return Err(ResponseError::InvalidHeaderValue);
            },
        };
        let ghost built = built_headers(pairs.take(at as int))->Ok_0;
        assert(built_headers(more)->Ok_0.dom() =~= built.dom().insert(header_map::name_text(name)));
        if !full {
            match append_header(&mut headers, name, value) {
                Ok(_) => {},
                Err(_) => {
                    full = true;
                },
            }
        }
        at = at + 1;
    }
    assert(pairs.take(at as int) =~= pairs);
    if full {
        return Err(ResponseError::TooManyHeaders);
    }
    Ok(Response { status, headers, body: body_from_bytes(response.body) })
}

/// The bytes of the values in pairs whose name is this one up to the case of letters.
pub open spec fn values_named(pairs: Seq<(Seq<char>, Seq<char>)>, name: Seq<char>) -> Seq<Seq<u8>>
    decreases pairs.len(),
{
    if pairs.len() == 0 {
        Seq::empty()
    } else {
        let front = values_named(pairs.drop_last(), name);
        if header_map::canonical_name(pairs.last().0) == Some(name) {
            front.push(vstd::utf8::encode_utf8(pairs.last().1))
        } else {
            front
        }
    }
}

/// No header of a response is lost, none is added, and the values of each header keep
/// their order.
pub proof fn law_response_headers_are_kept(
    pairs: Seq<(Seq<char>, Seq<char>)>,
    name: Seq<char>,
)
    ensures
        built_headers(pairs) matches Ok(headers) ==> header_map::values_of(headers, name)
            == values_named(pairs, name),
    decreases pairs.len(),
{
    if pairs.len() > 0 {
        law_response_headers_are_kept(pairs.drop_last(), name);
    }
}

/// A response is refused for its headers exactly where one of them has an invalid name or
/// an invalid value.
pub proof fn law_response_headers_are_valid(pairs: Seq<(Seq<char>, Seq<char>)>)
    ensures
        built_headers(pairs) is Ok <==> forall|i: int|
            0 <= i < pairs.len() ==> header_map::canonical_name((#[trigger] pairs[i]).0) is Some
                && header_map::is_value_text(pairs[i].1),
    decreases pairs.len(),
{
    if pairs.len() > 0 {
        let front = pairs.drop_last();
        law_response_headers_are_valid(front);
        assert forall|i: int| 0 <= i < front.len() implies front[i] == pairs[i] by {}
        assert(pairs[pairs.len() - 1] == pairs.last());
    }
}

/// The URL of a request is an origin with the URI behind it. A configured origin is taken
/// whatever the request names; otherwise the first `Origin` header is, if it reads as text.
pub proof fn law_url_starts_with_the_origin(parts: RequestParts, config: ServeSvelteConfig)
    ensures
        ({
            let named = header_map::values_of(
                header_map::header_values(parts.headers),
                "origin"@,
            );
            &&& config.origin matches Some(origin) ==> request_url(parts, config) == Some(
                origin@ + parts.uri@.text(),
            )
            &&& config.origin is None && named.len() > 0 && header_map::is_text(named[0])
                ==> request_url(parts, config) == Some(
                header_map::ascii_chars(named[0]) + parts.uri@.text(),
            )
            &&& request_url(parts, config) is None <==> config.origin is None && (named.len() == 0
                || !header_map::is_text(named[0]))
        }),
{
}

/// Headers are handed on as they are: each value of each header stands as a pair of the name
/// and the text of the value, and no other pair does.
pub proof fn law_headers_are_handed_on(
    pairs: Seq<(Seq<char>, Seq<char>)>,
    headers: header_map::HeaderContents,
    name: Seq<char>,
    value: Seq<char>,
)
    requires
        forall|name: Seq<char>|
            #[trigger] listed_texts(pairs, name) == header_texts(headers, name),
    ensures
        pairs.contains((name, value)) <==> exists|i: int|
            0 <= i < header_map::values_of(headers, name).len() && header_map::ascii_chars(
                #[trigger] header_map::values_of(headers, name)[i],
            ) == value,
        listed_texts(pairs, name).len() == header_map::values_of(headers, name).len(),
        forall|i: int|
            0 <= i < header_map::values_of(headers, name).len() ==> #[trigger] listed_texts(
                pairs,
                name,
            )[i] == header_map::ascii_chars(header_map::values_of(headers, name)[i]),
{
    let named = has_name(name);
    let kept = pairs.filter(named);
    let texts = listed_texts(pairs, name);
    let values = header_map::values_of(headers, name);
    assert(texts == header_texts(headers, name));
    if pairs.contains((name, value)) {
        let i = choose|i: int| 0 <= i < pairs.len() && pairs[i] == (name, value);
        pairs.lemma_filter_contains(named, i);
        let at = choose|at: int| 0 <= at < kept.len() && kept[at] == (name, value);
        assert(texts[at] == value);
        assert(header_map::ascii_chars(values[at]) == value);
    }
    if exists|i: int|
        0 <= i < values.len() && header_map::ascii_chars(#[trigger] values[i]) == value {
        let i = choose|i: int|
            0 <= i < values.len() && header_map::ascii_chars(#[trigger] values[i]) == value;
        assert(texts[i] == value);
        pairs.lemma_filter_pred(named, i);
        assert(kept.contains(kept[i]));
        pairs.lemma_filter_contains_rev(named, kept[i]);
        assert(kept[i] == (name, value));
    }
}

/// A response is refused for the number of its headers only where it has at least 6554
/// different ones, and all of them are valid. However many values a header has, they count
/// once.
pub proof fn law_many_names(pairs: Seq<(Seq<char>, Seq<char>)>)
    ensures
        has_many_names(pairs) <==> built_headers(pairs) is Ok && built_headers(
            pairs,
        )->Ok_0.dom().len() >= 6554,
        built_headers(pairs) is Ok ==> built_headers(pairs)->Ok_0.dom().finite() && built_headers(
            pairs,
        )->Ok_0.dom().len() <= pairs.len(),
        built_headers(pairs) matches Ok(headers) ==> forall|name: Seq<char>|
            headers.dom().contains(name) <==> values_named(pairs, name).len() > 0,
    decreases pairs.len(),
{
    if pairs.len() > 0 {
        law_many_names(pairs.drop_last());
        if built_headers(pairs) is Ok {
            let before = built_headers(pairs.drop_last())->Ok_0;
            let name = header_map::canonical_name(pairs.last().0)->0;
            assert(built_headers(pairs)->Ok_0.dom() =~= before.dom().insert(name));
        }
    }
}

/// Values are taken as text one by one, each beside its name, and only if all of them read as
/// text.
pub proof fn law_values_are_taken_as_text(pairs: Seq<(Seq<char>, Seq<u8>)>)
    ensures
        values_as_text(pairs) is Some <==> forall|i: int|
            0 <= i < pairs.len() ==> header_map::is_text((#[trigger] pairs[i]).1),
        values_as_text(pairs) matches Some(texts) ==> {
            &&& texts.len() == pairs.len()
            &&& forall|i: int|
                0 <= i < pairs.len() ==> #[trigger] texts[i] == (
                    pairs[i].0,
                    header_map::ascii_chars(pairs[i].1),
                )
        },
{
}

/// What a request for the app says is what it holds.
pub proof fn law_requests_say_what_they_hold(request: HttpRequest)
    ensures
        request@.url == request.url@,
        request@.method == request.method@,
        request@.headers.len() == request.headers@.len(),
        forall|i: int|
            0 <= i < request.headers@.len() ==> #[trigger] request@.headers[i] == (
                request.headers@[i].0@,
                request.headers@[i].1@,
            ),
        request.body is None ==> request@.body is None,
        request.body matches Some(body) ==> request@.body == Some(body@),
{
}

} // verus!

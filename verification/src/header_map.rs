//! The header map of the `http` crate, as the rest of the library sees it.
//!
//! A header map is a multimap: under each name, in lower case, stand the values
//! that were appended under that name, in the order in which they came.
use http::header::{
    HeaderMap, HeaderName, HeaderValue, InvalidHeaderName, InvalidHeaderValue, MaxSizeReached,
};
use vstd::prelude::*;

verus! {

/// `http::HeaderMap`, held as an opaque value.
#[verifier::external_type_specification]
#[verifier::external_body]
#[verifier::reject_recursive_types(T)]
pub struct ExHeaderMap<T>(http::header::HeaderMap<T>);

/// `http::HeaderName`, held as an opaque value.
#[verifier::external_type_specification]
#[verifier::external_body]
pub struct ExHeaderName(http::header::HeaderName);

/// `http::HeaderValue`, held as an opaque value.
#[verifier::external_type_specification]
#[verifier::external_body]
pub struct ExHeaderValue(http::header::HeaderValue);

/// The error of a header name that is not a token.
#[verifier::external_type_specification]
#[verifier::external_body]
pub struct ExInvalidHeaderName(http::header::InvalidHeaderName);

/// The error of a header value that holds a forbidden byte.
#[verifier::external_type_specification]
#[verifier::external_body]
pub struct ExInvalidHeaderValue(http::header::InvalidHeaderValue);

/// The error of a header map that takes no further name.
#[verifier::external_type_specification]
#[verifier::external_body]
pub struct ExMaxSizeReached(http::header::MaxSizeReached);

/// Names in lower case, each with its values in order.
pub type HeaderContents = Map<Seq<char>, Seq<Seq<u8>>>;

/// What a header map holds: under each name that occurs, its values in order.
pub uninterp spec fn header_values(headers: HeaderMap) -> HeaderContents;

/// The characters of a header name, always in lower case.
pub uninterp spec fn name_text(name: HeaderName) -> Seq<char>;

/// The bytes of a header value.
pub uninterp spec fn value_bytes(value: HeaderValue) -> Seq<u8>;

/// A character of an HTTP token.
pub open spec fn is_token_char(c: char) -> bool {
    ||| '0' <= c <= '9'
    ||| 'a' <= c <= 'z'
    ||| 'A' <= c <= 'Z'
    ||| c == '!' || c == '#' || c == '$' || c == '%' || c == '&' || c == '\''
    ||| c == '*' || c == '+' || c == '-' || c == '.'
    ||| c == '^' || c == '_' || c == '`' || c == '|' || c == '~'
}

/// A letter of the ASCII range in lower case; any other character as it is.
pub open spec fn lower(c: char) -> char {
    if 'A' <= c <= 'Z' {
        ((c as u32) + 32) as char
    } else {
        c
    }
}

/// The text in lower case.
pub open spec fn lower_text(text: Seq<char>) -> Seq<char> {
    text.map_values(|c: char| lower(c))
}

/// The name under which a header with this name is kept, if it is a name at all.
pub open spec fn canonical_name(text: Seq<char>) -> Option<Seq<char>> {
    if 0 < text.len() <= 65535 && (forall|i: int|
        0 <= i < text.len() ==> is_token_char(#[trigger] text[i])) {
        Some(lower_text(text))
    } else {
        None
    }
}

/// A byte that reads as text in a header value: visible ASCII, space or tab.
pub open spec fn is_text_byte(b: u8) -> bool {
    32 <= b < 127 || b == 9
}

/// A byte that a header value may hold.
pub open spec fn is_value_byte(b: u8) -> bool {
    b >= 32 && b != 127 || b == 9
}

/// Whether all of the bytes read as text.
pub open spec fn is_text(bytes: Seq<u8>) -> bool {
    forall|i: int| 0 <= i < bytes.len() ==> is_text_byte(#[trigger] bytes[i])
}

/// The characters of bytes that are ASCII.
pub open spec fn ascii_chars(bytes: Seq<u8>) -> Seq<char> {
    bytes.map_values(|b: u8| b as char)
}

/// The values kept under a name; none where the name does not occur.
pub open spec fn values_of(values: HeaderContents, name: Seq<char>) -> Seq<Seq<u8>> {
    if values.dom().contains(name) {
        values[name]
    } else {
        Seq::empty()
    }
}

/// The map after one more value came under a name.
pub open spec fn appended(
    values: HeaderContents,
    name: Seq<char>,
    value: Seq<u8>,
) -> HeaderContents {
    values.insert(name, values_of(values, name).push(value))
}

/// A map with fewer names than this always takes another.
pub open spec fn has_room(values: HeaderContents) -> bool {
    values.dom().finite() && values.dom().len() < 6554
}

/// Calls `HeaderMap::new`: a map that holds nothing.
#[verifier::external_body]
pub(crate) fn new_headers() -> (headers: HeaderMap)
    ensures
        header_values(headers) == HeaderContents::empty(),
{
    HeaderMap::new()
}

/// Calls `HeaderName::from_str`, which takes a token of at most 65535 characters and
/// keeps it in lower case, and refuses everything else.
#[verifier::external_body]
pub(crate) fn parse_name(text: &str) -> (r: Result<HeaderName, InvalidHeaderName>)
    ensures
        match r {
            Ok(name) => canonical_name(text@) == Some(name_text(name)),
            Err(_) => canonical_name(text@) is None,
        },
{
    text.parse::<HeaderName>()
}

/// Text of visible ASCII characters has bytes that read as text, one for each.
pub proof fn lemma_visible_bytes(text: Seq<char>)
    requires
        forall|i: int| 0 <= i < text.len() ==> ' ' <= #[trigger] text[i] <= '~',
    ensures
        is_text(vstd::utf8::encode_utf8(text)),
        vstd::utf8::encode_utf8(text).len() == text.len(),
        ascii_chars(vstd::utf8::encode_utf8(text)) == text,
{
    vstd::utf8::is_ascii_chars_encode_utf8(text);
    assert(ascii_chars(vstd::utf8::encode_utf8(text)) =~= text);
}

/// Whether text can stand as the value of a header.
pub open spec fn is_value_text(text: Seq<char>) -> bool {
    forall|i: int|
        0 <= i < vstd::utf8::encode_utf8(text).len() ==> is_value_byte(
            #[trigger] vstd::utf8::encode_utf8(text)[i],
        )
}

/// Whether text holds no control characters.
pub open spec fn is_printable(text: Seq<char>) -> bool {
    forall|i: int|
        0 <= i < text.len() ==> (#[trigger] text[i]) as u32 >= 32 && text[i] as u32 != 127
}

proof fn lemma_printable_char(code: u32)
    requires
        32 <= code,
        code != 127,
    ensures
        forall|i: int|
            0 <= i < vstd::utf8::encode_scalar(code).len() ==> is_value_byte(
                #[trigger] vstd::utf8::encode_scalar(code)[i],
            ),
{
    assert(code <= 0x7F ==> vstd::utf8::leading_byte_width_1(code) == code) by (bit_vector);
    assert(vstd::utf8::leading_byte_width_2(code) >= 128) by (bit_vector);
    assert(vstd::utf8::leading_byte_width_3(code) >= 128) by (bit_vector);
    assert(vstd::utf8::leading_byte_width_4(code) >= 128) by (bit_vector);
    assert(vstd::utf8::last_continuation_byte(code) >= 128) by (bit_vector);
    assert(vstd::utf8::second_last_continuation_byte(code) >= 128) by (bit_vector);
    assert(vstd::utf8::third_last_continuation_byte(code) >= 128) by (bit_vector);
}

/// Text without control characters can stand as the value of a header.
pub proof fn lemma_printable(text: Seq<char>)
    requires
        is_printable(text),
    ensures
        is_value_text(text),
    decreases text.len(),
{
    if text.len() > 0 {
        let rest = text.drop_first();
        assert forall|i: int| 0 <= i < rest.len() implies (#[trigger] rest[i]) as u32 >= 32
            && rest[i] as u32 != 127 by {
            assert(rest[i] == text[i + 1]);
        }
        lemma_printable(rest);
        lemma_printable_char(text[0] as u32);
        let first = vstd::utf8::encode_scalar(text[0] as u32);
        let bytes = vstd::utf8::encode_utf8(text);
        assert(bytes == first + vstd::utf8::encode_utf8(rest));
        assert forall|i: int| 0 <= i < bytes.len() implies is_value_byte(#[trigger] bytes[i]) by {
            if i < first.len() {
                assert(bytes[i] == first[i]);
            } else {
                assert(bytes[i] == vstd::utf8::encode_utf8(rest)[i - first.len()]);
            }
        }
    }
}

/// Letters in lower case and hyphens.
pub open spec fn is_plain_name(text: Seq<char>) -> bool {
    &&& 0 < text.len() <= 64
    &&& forall|i: int| 0 <= i < text.len() ==> 'a' <= #[trigger] text[i] <= 'z' || text[i] == '-'
}

/// The name of a header that is made of letters in lower case and hyphens.
pub(crate) fn known_name(text: &str) -> (name: HeaderName)
    requires
        is_plain_name(text@),
    ensures
        name_text(name) == text@,
{
    assert(lower_text(text@) =~= text@);
    match parse_name(text) {
        Ok(name) => name,
        Err(_) => vstd::pervasive::unreached(),
    }
}

/// `HeaderValue::from_static`: the value that holds the bytes of the text, which have
/// to read as text.
pub assume_specification[ HeaderValue::from_static ](src: &'static str) -> (value: HeaderValue)
    requires
        is_text(vstd::utf8::encode_utf8(src@)),
    ensures
        value_bytes(value) == vstd::utf8::encode_utf8(src@),
;

/// `HeaderValue::from_str`: the value that holds the bytes of the text, or an error
/// where one of them may not stand in a header value.
pub assume_specification[ HeaderValue::from_str ](src: &str) -> (value: Result<
    HeaderValue,
    InvalidHeaderValue,
>)
    ensures
        match value {
            Ok(value) => {
                &&& is_value_text(src@)
                &&& value_bytes(value) == vstd::utf8::encode_utf8(src@)
            },
            Err(_) => !is_value_text(src@),
        },
;

/// `HeaderValue::as_bytes`: the bytes of the value.
pub assume_specification[ HeaderValue::as_bytes ](value: &HeaderValue) -> (bytes: &[u8])
    ensures
        bytes@ == value_bytes(*value),
;

/// Calls `HeaderValue::to_str`, which gives the characters of a value whose bytes all
/// read as text, and an error for any other value.
#[verifier::external_body]
pub(crate) fn value_text(value: &HeaderValue) -> (text: Option<&str>)
    ensures
        match text {
            Some(text) => is_text(value_bytes(*value)) && text@ == ascii_chars(value_bytes(*value)),
            None => !is_text(value_bytes(*value)),
        },
{
    value.to_str().ok()
}

/// Calls `HeaderMap::get`: the first value under the name, if the name occurs.
#[verifier::external_body]
pub(crate) fn get_header<'a>(headers: &'a HeaderMap, name: &HeaderName) -> (value: Option<
    &'a HeaderValue,
>)
    ensures
        match value {
            Some(value) => {
                &&& values_of(header_values(*headers), name_text(*name)).len() > 0
                &&& value_bytes(*value) == values_of(header_values(*headers), name_text(*name))[0]
            },
            None => values_of(header_values(*headers), name_text(*name)).len() == 0,
        },
{
    headers.get(name)
}

/// Calls `HeaderMap::get_all`: every value under the name, in the order in which they
/// came.
#[verifier::external_body]
pub(crate) fn get_all_headers<'a>(headers: &'a HeaderMap, name: &HeaderName) -> (values: Vec<
    &'a HeaderValue,
>)
    ensures
        values@.map_values(|value: &HeaderValue| value_bytes(*value)) == values_of(
            header_values(*headers),
            name_text(*name),
        ),
{
    headers.get_all(name).iter().collect()
}

/// Whether a pair has this name.
pub open spec fn is_named(name: Seq<char>) -> spec_fn((Seq<char>, Seq<u8>)) -> bool {
    |pair: (Seq<char>, Seq<u8>)| pair.0 == name
}

/// The values that stand beside a name in a list of pairs, in order.
pub open spec fn listed_values(pairs: Seq<(Seq<char>, Seq<u8>)>, name: Seq<char>) -> Seq<Seq<u8>> {
    pairs.filter(is_named(name)).map_values(
        |pair: (Seq<char>, Seq<u8>)| pair.1,
    )
}

/// The characters and bytes of pairs of a name and a value.
pub open spec fn pairs_view(pairs: Seq<(String, HeaderValue)>) -> Seq<(Seq<char>, Seq<u8>)> {
    pairs.map_values(|pair: (String, HeaderValue)| (pair.0@, value_bytes(pair.1)))
}

/// Calls `HeaderMap::iter` and lists each name with each of its values. The values of
/// one name come in their order; in which order the names come is left open.
#[verifier::external_body]
pub(crate) fn header_pairs(headers: &HeaderMap) -> (pairs: Vec<(String, HeaderValue)>)
    ensures
        forall|name: Seq<char>|
            #[trigger] listed_values(pairs_view(pairs@), name) == values_of(
                header_values(*headers),
                name,
            ),
{
    headers.iter().map(|(name, value)| (name.to_string(), value.clone())).collect()
}

/// Calls `HeaderMap::try_append`: the value comes after the values that stand under the
/// name. Where the map takes no further name it stays as it was; that does not happen
/// as long as there is room: the map refuses a value only where its table has 32768 places
/// and would have to grow, which it does not while less than a fifth of them is taken.
#[verifier::external_body]
pub(crate) fn append_header(headers: &mut HeaderMap, name: HeaderName, value: HeaderValue) -> (r:
    Result<bool, MaxSizeReached>)
    ensures
        match r {
            Ok(_) => header_values(*final(headers)) == appended(
                header_values(*old(headers)),
                name_text(name),
                value_bytes(value),
            ),
            Err(_) => {
                &&& header_values(*final(headers)) == header_values(*old(headers))
                &&& !has_room(header_values(*old(headers)))
            },
        },
{
    headers.try_append(name, value)
}

} // verus!

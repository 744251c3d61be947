//! Responses, as they are decided on before anything is sent.
use crate::header_map::{self, append_header, known_name, new_headers};
use crate::media_type;
use http::header::{HeaderMap, HeaderValue};
use vstd::prelude::*;
use vstd::string::StrSliceExecFns;

verus! {

/// What to send as the body of a response.
#[derive(Debug)]
pub enum ResponseBody {
    Empty,
    Bytes(Vec<u8>),
    /// The opened file from its current position on, in chunks of at most `capacity`
    /// bytes, and no more than `limit` bytes in all.
    File { capacity: usize, limit: Option<u64> },
}

/// What to send as the body of a response.
pub enum Body {
    Empty,
    Bytes(Seq<u8>),
    File { capacity: usize, limit: Option<u64> },
}

impl View for ResponseBody {
    type V = Body;

    open spec fn view(&self) -> Body {
        match self {
            ResponseBody::Empty => Body::Empty,
            ResponseBody::Bytes(bytes) => Body::Bytes(bytes@),
            ResponseBody::File { capacity, limit } => Body::File {
                capacity: *capacity,
                limit: *limit,
            },
        }
    }
}

/// A response.
#[derive(Debug)]
pub struct Response {
    pub status: u16,
    pub headers: HeaderMap,
    pub body: ResponseBody,
}

/// What a response says.
pub struct Reply {
    pub status: u16,
    pub headers: header_map::HeaderContents,
    pub body: Body,
}

impl View for Response {
    type V = Reply;

    open spec fn view(&self) -> Reply {
        Reply {
            status: self.status,
            headers: header_map::header_values(self.headers),
            body: self.body@,
        }
    }
}

/// A response without headers or a body.
pub open spec fn bare(status: u16) -> Reply {
    Reply { status, headers: header_map::HeaderContents::empty(), body: Body::Empty }
}

/// A body that holds nothing.
pub fn empty_body() -> (body: ResponseBody)
    ensures
        body@ == Body::Empty,
        body is Empty,
{
    ResponseBody::Empty
}

/// A body that holds these bytes.
pub fn body_from_bytes(bytes: Vec<u8>) -> (body: ResponseBody)
    ensures
        body@ == Body::Bytes(bytes@),
        body == ResponseBody::Bytes(bytes),
{
    ResponseBody::Bytes(bytes)
}

/// A body that holds this message.
pub fn body_from_message(message: &'static str) -> (body: ResponseBody)
    ensures
        body@ == Body::Bytes(vstd::utf8::encode_utf8(message@)),
{
    body_from_bytes(message.as_bytes_vec())
}

/// A response without headers or a body.
pub fn response_with_status(status: u16) -> (response: Response)
    ensures
        response@ == bare(status),
        response.status == status,
        response@.headers == header_map::HeaderContents::empty(),
        response.body is Empty,
{
    Response { status, headers: new_headers(), body: empty_body() }
}

/// A header value that holds visible text.
pub(crate) fn visible_value(text: &str) -> (value: HeaderValue)
    requires
        media_type::is_visible(text@),
    ensures
        header_map::value_bytes(value) == vstd::utf8::encode_utf8(text@),
{
    proof {
        header_map::lemma_visible_bytes(text@);
    }
    match HeaderValue::from_str(text) {
        Ok(value) => value,
        Err(_) => vstd::pervasive::unreached(),
    }
}

/// Appends a header whose value is visible text to headers that have room for it.
pub(crate) fn add_header(headers: &mut HeaderMap, name: &str, text: &str)
    requires
        header_map::is_plain_name(name@),
        media_type::is_visible(text@),
        header_map::has_room(header_map::header_values(*old(headers))),
    ensures
        header_map::header_values(*final(headers)) == header_map::appended(
            header_map::header_values(*old(headers)),
            name@,
            vstd::utf8::encode_utf8(text@),
        ),
{
    let name = known_name(name);
    let value = visible_value(text);
    match append_header(headers, name, value) {
        Ok(_) => {},
        Err(_) => vstd::pervasive::unreached(),
    }
}

/// A response that has nothing but a status has that status, no header, and no body.
pub proof fn law_bare_has_only_a_status(status: u16)
    ensures
        bare(status).status == status,
        forall|name: Seq<char>|
            (#[trigger] header_map::values_of(bare(status).headers, name)).len() == 0,
        bare(status).body == Body::Empty,
{
}

/// What a response says is what it holds.
pub proof fn law_responses_say_what_they_hold(response: Response)
    ensures
        response@.status == response.status,
        response@.headers == header_map::header_values(response.headers),
        match response.body {
            ResponseBody::Empty => response@.body == Body::Empty,
            ResponseBody::Bytes(bytes) => response@.body == Body::Bytes(bytes@),
            ResponseBody::File { capacity, limit } => response@.body == (Body::File {
                capacity,
                limit,
            }),
        },
{
}

} // verus!

//! Serving whole files without negotiation, and searching directories that are served by
//! another service.
use crate::header_map;
use crate::media_type::{self, essence_for};
use crate::response::{self, add_header, body_from_bytes, response_with_status, Reply, Response};
use crate::serve;
use crate::static_files::{
    self, mark_immutable, search_continues, Place, SearchStep, ServeSvelteState,
};
use crate::text::starts_with;
use vstd::prelude::*;

verus! {

/// Whether what lies under a path is to be served, and if so, whether it never changes.
/// Only files are served; of these, what lies under the immutable path of the client never
/// changes.
pub fn try_serve_from(
    immutable_path: &str,
    request_path: &str,
    client: bool,
    is_file: bool,
) -> (immutable: Option<bool>)
    ensures
        immutable == if is_file {
            Some(client && immutable_path@.is_prefix_of(request_path@))
        } else {
            None
        },
{
    if !is_file {
        return None;
    }
    Some(client && starts_with(request_path, immutable_path))
}

/// The response with a whole file.
pub open spec fn whole_file(name: Seq<char>, content: Seq<u8>, immutable: bool) -> Reply {
    static_files::marked(
        Reply {
            status: 200,
            headers: serve::with_header(
                response::bare(200).headers,
                "content-type"@,
                media_type::essence_of(name),
            ),
            body: response::Body::Bytes(content),
        },
        immutable,
    )
}

/// Decides on the response with a whole file that was read.
pub fn static_serve(name: &str, content: Vec<u8>, immutable: bool) -> (r: Response)
    ensures
        r@ == whole_file(name@, content@, immutable),
{
    proof {
        reveal_strlit("content-type");
    }
    let mut response = response_with_status(200);
    let ghost empty = response@.headers;
    let essence = essence_for(name);
    add_header(&mut response.headers, "content-type", essence.as_str());
    assert(response@.headers.dom() =~= empty.dom().insert("content-type"@));
    if immutable {
        mark_immutable(&mut response.headers);
    }
    response.body = body_from_bytes(content);
    response
}

/// What a service found that answered with this status: everything but `404 Not Found`
/// counts.
pub open spec fn found_with(status: u16) -> Option<u16> {
    if status == 404 {
        None
    } else {
        Some(status)
    }
}

/// Decides what follows the answer of the service that serves the directory of a place.
pub fn place_answered(
    state: &ServeSvelteState,
    request_path: &str,
    place: Place,
    status: u16,
) -> (step: SearchStep)
    ensures
        step == static_files::step_after(
            place,
            found_with(status),
            state.prerendered@.contains(request_path@),
            state.immutable_path@.is_prefix_of(request_path@),
        ),
{
    let found = if status == 404 {
        None
    } else {
        Some(status)
    };
    search_continues(state, request_path, place, found)
}

/// A whole file is sent with status 200 under its media type, and where it never changes, it
/// is marked so. Only `404 Not Found` counts as nothing found.
pub proof fn law_whole_files(name: Seq<char>, content: Seq<u8>, status: u16)
    ensures
        whole_file(name, content, true).status == 200,
        whole_file(name, content, false).status == 200,
        whole_file(name, content, true).body == response::Body::Bytes(content),
        whole_file(name, content, false).body == response::Body::Bytes(content),
        header_map::values_of(whole_file(name, content, true).headers, "content-type"@) == seq![
            vstd::utf8::encode_utf8(media_type::essence_of(name)),
        ],
        header_map::values_of(whole_file(name, content, false).headers, "content-type"@) == seq![
            vstd::utf8::encode_utf8(media_type::essence_of(name)),
        ],
        header_map::values_of(whole_file(name, content, true).headers, "cache-control"@) == seq![
            vstd::utf8::encode_utf8("public,max-age=31536000,immutable"@),
        ],
        header_map::values_of(whole_file(name, content, false).headers, "cache-control"@).len()
            == 0,
        found_with(status) is None <==> status == 404,
        found_with(status) is Some ==> found_with(status) == Some(status),
{
    reveal_strlit("content-type");
    reveal_strlit("cache-control");
    assert("content-type"@.len() != "cache-control"@.len());
    let essence = vstd::utf8::encode_utf8(media_type::essence_of(name));
    let mark = vstd::utf8::encode_utf8("public,max-age=31536000,immutable"@);
    assert(Seq::<Seq<u8>>::empty().push(essence) =~= seq![essence]);
    assert(Seq::<Seq<u8>>::empty().push(mark) =~= seq![mark]);
}

} // verus!

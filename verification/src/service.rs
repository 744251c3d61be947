//! How a request is answered: with static content, or by the app.
use crate::dynamic::{
    self, create_dynamic_request, create_dynamic_response, get_request_url, HttpRequest, HttpResponse,
    Question,
};
use crate::header_map;
use crate::request::{self, has_body, FileRequestOptions, RequestParts, ServeSvelteConfig};
use crate::request_uri;
use crate::response::{self, response_with_status, Reply, Response};
use crate::static_files::{self, try_serve_static, Place, ServeSvelteState, StaticStep};
use vstd::prelude::*;

verus! {

/// What is to be done next to answer a request.
#[derive(Debug)]
pub enum CallStep {
    /// Look for static content.
    Search { options: FileRequestOptions, step: StaticStep },
    /// Read the body of the request, for the app.
    ReadBody { request: HttpRequest },
    /// Hand the request to the app.
    Handle { request: HttpRequest },
    /// Send the response.
    Respond { response: Response },
}

/// Whether the request for the app is the one that a call is about, with this body.
pub open spec fn is_question(
    question: Question,
    parts: RequestParts,
    url: Seq<char>,
    body: Option<Seq<u8>>,
) -> bool {
    &&& question.url == url
    &&& question.method == parts.method@
    &&& question.body == body
    &&& forall|name: Seq<char>|
        #[trigger] dynamic::listed_texts(question.headers, name) == dynamic::header_texts(
            header_map::header_values(parts.headers),
            name,
        )
}

/// Whether a request can be handed to the app: its URL is known, and its headers are text.
pub open spec fn is_presentable(parts: RequestParts, config: ServeSvelteConfig) -> bool {
    &&& dynamic::request_url(parts, config) is Some
    &&& dynamic::all_text(header_map::header_values(parts.headers))
}

/// What follows where there is no static content for a request: the app is asked, once the
/// body is read where there is one. A request that cannot be handed to the app is answered
/// with an error.
pub open spec fn asks_app(
    parts: RequestParts,
    config: ServeSvelteConfig,
    step: CallStep,
) -> bool {
    match step {
        CallStep::Search { .. } => false,
        CallStep::ReadBody { request } => {
            &&& is_presentable(parts, config)
            &&& !request::is_read_method(parts.method@)
            &&& is_question(request@, parts, dynamic::request_url(parts, config)->0, None)
        },
        CallStep::Handle { request } => {
            &&& is_presentable(parts, config)
            &&& request::is_read_method(parts.method@)
            &&& is_question(request@, parts, dynamic::request_url(parts, config)->0, None)
        },
        CallStep::Respond { response } => {
            &&& !is_presentable(parts, config)
            &&& response@ == response::bare(500)
        },
    }
}

fn ask_app(parts: &RequestParts, config: &ServeSvelteConfig) -> (step: CallStep)
    ensures
        asks_app(*parts, *config, step),
{
    let url = match get_request_url(parts, config) {
        Some(url) => url,
        // The origin cannot be determined.
        None => {
            return CallStep::Respond { response: response_with_status(500) };
        },
    };
    match create_dynamic_request(parts, url) {
        Ok(request) => {
            if has_body(parts.method.as_str()) {
                CallStep::ReadBody { request }
            } else {
                CallStep::Handle { request }
            }
        },
        Err(_) => CallStep::Respond { response: response_with_status(500) },
    }
}

/// Starts to answer a request. Static content is looked for where the request only reads.
pub fn call(parts: &RequestParts, config: &ServeSvelteConfig, state: &ServeSvelteState) -> (step:
    CallStep)
    requires
        request_uri::is_path(parts.uri.path@),
    ensures
        if request::is_read_method(parts.method@) {
            &&& step matches CallStep::Search { options, step: search }
            &&& options@ == request::file_request(parts.headers, config.buf_chunk_size)
            &&& static_files::starts_in(*state, parts.uri.path@, Place::Client, search@)
        } else {
            asks_app(*parts, *config, step)
        },
        step is Search <==> parts.method@ == "GET"@ || parts.method@ == "HEAD"@,
        step is ReadBody <==> parts.method@ != "GET"@ && parts.method@ != "HEAD"@
            && is_presentable(*parts, *config),
        step is Respond <==> parts.method@ != "GET"@ && parts.method@ != "HEAD"@
            && !is_presentable(*parts, *config),
{
    if has_body(parts.method.as_str()) {
        ask_app(parts, config)
    } else {
        let options = FileRequestOptions::from_parts(parts, config);
        let step = try_serve_static(state, parts.uri.path.as_str());
        CallStep::Search { options, step }
    }
}

/// Goes on once static content was looked for.
pub fn searched(
    parts: &RequestParts,
    config: &ServeSvelteConfig,
    outcome: Option<Response>,
) -> (step: CallStep)
    ensures
        match outcome {
            Some(response) => step == (CallStep::Respond { response }),
            None => asks_app(*parts, *config, step),
        },
        outcome is None ==> (step is Handle <==> (parts.method@ == "GET"@ || parts.method@
            == "HEAD"@) && is_presentable(*parts, *config)),
        outcome is None ==> (step is ReadBody <==> parts.method@ != "GET"@ && parts.method@
            != "HEAD"@ && is_presentable(*parts, *config)),
{
    match outcome {
        Some(response) => CallStep::Respond { response },
        None => ask_app(parts, config),
    }
}

/// Goes on once the body of a request was read, or could not be.
pub fn body_read(request: HttpRequest, body: Option<Vec<u8>>) -> (step: CallStep)
    ensures
        match body {
            Some(body) => {
                &&& step matches CallStep::Handle { request: complete }
                &&& complete@ == (Question { body: Some(body@), ..request@ })
            },
            None => step matches CallStep::Respond { response } && response@ == response::bare(
                500,
            ),
        },
{
    match body {
        Some(body) => {
            let mut request = request;
            request.body = Some(body);
            CallStep::Handle { request }
        },
        None => CallStep::Respond { response: response_with_status(500) },
    }
}

/// What a request is answered that was handed to the app.
pub open spec fn is_answer(result: Option<HttpResponse>, reply: Reply) -> bool {
    match result {
        Some(response) => match dynamic::built_headers(dynamic::text_pairs(response.headers@)) {
            Ok(headers) => if dynamic::is_status(response.status) {
                ||| reply == (Reply {
                    status: response.status,
                    headers,
                    body: response::Body::Bytes(response.body@),
                })
                ||| dynamic::has_many_names(dynamic::text_pairs(response.headers@)) && reply
                    == response::bare(500)
            } else {
                reply == response::bare(500)
            },
            Err(_) => reply == response::bare(500),
        },
        None => reply == response::bare(500),
    }
}

/// Ends with what the app answered. Where it failed, or where what it answered is no
/// proper response, the answer is an error.
pub fn handled(result: Option<HttpResponse>) -> (response: Response)
    ensures
        is_answer(result, response@),
        result is None ==> response.status == 500 && response.body is Empty,
{
    let answer = match result {
        Some(answer) => answer,
        None => {
            return response_with_status(500);
        },
    };
    match create_dynamic_response(answer) {
        Ok(response) => response,
        Err(_) => response_with_status(500),
    }
}

/// The app is asked exactly where a request can be handed to it; its body is read first
/// exactly where the request does not only read. Any other request is answered with an
/// error of the server.
pub proof fn law_app_is_asked(parts: RequestParts, config: ServeSvelteConfig, step: CallStep)
    requires
        asks_app(parts, config, step),
    ensures
        step is Handle <==> is_presentable(parts, config) && request::is_read_method(parts.method@),
        step is ReadBody <==> is_presentable(parts, config) && !request::is_read_method(
            parts.method@,
        ),
        step is Respond <==> !is_presentable(parts, config),
        step matches CallStep::Respond { response } ==> response@ == response::bare(500),
{
}

/// A request can be handed to the app exactly where its origin is known, from the
/// configuration or from its first `Origin` header, and all of its headers read as text.
pub proof fn law_presentable_requests(parts: RequestParts, config: ServeSvelteConfig)
    ensures
        ({
            let headers = header_map::header_values(parts.headers);
            let named = header_map::values_of(headers, "origin"@);
            is_presentable(parts, config) <==> {
                &&& config.origin is Some || named.len() > 0 && header_map::is_text(named[0])
                &&& forall|name: Seq<char>, i: int|
                    0 <= i < header_map::values_of(headers, name).len() ==> header_map::is_text(
                        #[trigger] header_map::values_of(headers, name)[i],
                    )
            }
        }),
{
    dynamic::law_url_starts_with_the_origin(parts, config);
}

/// Of a request that can be handed to the app the body is read first, unless its method is
/// `GET` or `HEAD`: these are handed on without one. The app is told the method of the
/// request, and its URI behind the origin.
pub proof fn law_bodies_are_read_but_for_get_and_head(
    parts: RequestParts,
    config: ServeSvelteConfig,
    step: CallStep,
)
    requires
        asks_app(parts, config, step),
    ensures
        is_presentable(parts, config) && (parts.method@ == "GET"@ || parts.method@ == "HEAD"@)
            ==> step is Handle,
        is_presentable(parts, config) && parts.method@ != "GET"@ && parts.method@ != "HEAD"@
            ==> step is ReadBody,
        !is_presentable(parts, config) ==> step is Respond,
        step matches CallStep::Respond { response } ==> response@.status == 500
            && response@.body == response::Body::Empty,
        step matches CallStep::Handle { request } ==> {
            &&& request@.method == parts.method@
            &&& request@.body is None
            &&& dynamic::request_url(parts, config) == Some(request@.url)
            &&& forall|name: Seq<char>|
                (#[trigger] dynamic::listed_texts(request@.headers, name))
                    == header_map::values_of(
                    header_map::header_values(parts.headers),
                    name,
                ).map_values(|value: Seq<u8>| header_map::ascii_chars(value))
            &&& config.origin matches Some(origin) ==> request@.url == origin@
                + parts.uri@.text()
        },
        step matches CallStep::ReadBody { request } ==> {
            &&& request@.method == parts.method@
            &&& request@.body is None
            &&& dynamic::request_url(parts, config) == Some(request@.url)
            &&& forall|name: Seq<char>|
                (#[trigger] dynamic::listed_texts(request@.headers, name))
                    == header_map::values_of(
                    header_map::header_values(parts.headers),
                    name,
                ).map_values(|value: Seq<u8>| header_map::ascii_chars(value))
            &&& config.origin matches Some(origin) ==> request@.url == origin@
                + parts.uri@.text()
        },
{
}

/// What the app answers is sent as it is: its status, its body, and its headers, all of them
/// and in their order. Where the app fails, or where its answer has a status or a header that
/// is none, the answer is an error of the server without headers or a body.
pub proof fn law_answers_are_sent_as_they_are(result: Option<HttpResponse>, reply: Reply)
    requires
        is_answer(result, reply),
    ensures
        result is None ==> reply.status == 500 && reply.body == response::Body::Empty,
        result matches Some(answer) ==> {
            let pairs = dynamic::text_pairs(answer.headers@);
            let valid = forall|i: int|
                0 <= i < pairs.len() ==> header_map::canonical_name((#[trigger] pairs[i]).0) is Some
                    && header_map::is_value_text(pairs[i].1);
            &&& 100 <= answer.status <= 999 && valid && dynamic::built_headers(
                pairs,
            )->Ok_0.dom().len() < 6554 ==> {
                &&& reply.status == answer.status
                &&& reply.body == response::Body::Bytes(answer.body@)
                &&& forall|name: Seq<char>|
                    #[trigger] header_map::values_of(reply.headers, name)
                        == dynamic::values_named(pairs, name)
            }
            &&& !(100 <= answer.status <= 999) || !valid ==> {
                &&& reply.status == 500
                &&& reply.body == response::Body::Empty
                &&& forall|name: Seq<char>|
                    (#[trigger] header_map::values_of(reply.headers, name)).len() == 0
            }
        },
{
    match result {
        Some(answer) => {
            let pairs = dynamic::text_pairs(answer.headers@);
            dynamic::law_response_headers_are_valid(pairs);
            if dynamic::built_headers(pairs) is Ok {
                let built = dynamic::built_headers(pairs)->Ok_0;
                assert forall|name: Seq<char>| #[trigger]
                    header_map::values_of(built, name) == dynamic::values_named(pairs, name) by {
                    dynamic::law_response_headers_are_kept(pairs, name);
                }
            }
        },
        None => {},
    }
}

} // verus!

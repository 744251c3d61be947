//! Where static content is looked for.
use crate::file::{FileError, FileMeta};
use crate::header_map;
use crate::media_type;
use crate::path::{self, FilePath};
use crate::request::FileRequest;
use crate::request_uri::{self, html_uri};
use crate::response::{add_header, Body, Reply, Response};
use crate::runtime::InitializedResponse;
use crate::serve::{self, try_serve_from_path, FileSystem, PathStep, Stage};
use crate::text::{self, concat, starts_with};
use http::header::HeaderMap;
use vstd::hash_set::StringHashSet;
use vstd::prelude::*;

verus! {

/// What is known of the content of an app.
pub struct ServeSvelteState {
    /// The paths of the pages that were rendered ahead.
    pub prerendered: StringHashSet,
    /// The path under which content never changes.
    pub immutable_path: String,
    pub client_path: FilePath,
    pub static_path: FilePath,
    pub prerendered_path: FilePath,
}

impl ServeSvelteState {
    /// The state for what a server tells of itself. Its content lies in three
    /// directories.
    pub fn new(init: InitializedResponse) -> (state: ServeSvelteState)
        ensures
            state.prerendered@ == init.prerendered@,
            state.immutable_path@ == init.app_path@ + "/immutable"@,
            state.client_path@ == seq!["client"@],
            state.static_path@ == seq!["static"@],
            state.prerendered_path@ == seq!["prerendered"@],
    {
        let immutable_path = concat(init.app_path.as_str(), "/immutable");
        ServeSvelteState {
            prerendered: init.prerendered,
            immutable_path,
            client_path: FilePath::top_level("client"),
            static_path: FilePath::top_level("static"),
            prerendered_path: FilePath::top_level("prerendered"),
        }
    }
}

/// The places where static content is looked for, in their order.
#[derive(Copy, Clone, Debug, PartialEq, Eq, Structural)]
pub enum Place {
    Client,
    Static,
    /// A page that was rendered ahead, under the path of the request.
    Prerendered,
    /// A page that was rendered ahead, under the path of the request as `.html` file.
    PrerenderedHtml,
}

/// What follows the search in one place.
#[derive(Copy, Clone, Debug, PartialEq, Eq, Structural)]
pub enum SearchStep {
    /// Search in the next place.
    Search { place: Place },
    /// Send what was found; whether it never changes.
    Respond { immutable: bool },
    /// There is no such static content.
    GiveUp,
}

/// Whether a status tells of success.
pub open spec fn is_success(status: u16) -> bool {
    200 <= status < 300
}

/// The place to search in after another, if there is one. Pages that were rendered ahead
/// are looked for only under the paths that are known to have one.
pub open spec fn place_after(place: Place, is_prerendered: bool) -> Option<Place> {
    match place {
        Place::Client => Some(Place::Static),
        Place::Static => if is_prerendered {
            Some(Place::Prerendered)
        } else {
            None
        },
        Place::Prerendered => Some(Place::PrerenderedHtml),
        Place::PrerenderedHtml => None,
    }
}

/// What follows the search in one place, given the status of the response with what was
/// found there.
pub open spec fn step_after(
    place: Place,
    found: Option<u16>,
    is_prerendered: bool,
    in_immutable: bool,
) -> SearchStep {
    match found {
        Some(status) => SearchStep::Respond {
            immutable: place == Place::Client && is_success(status) && in_immutable,
        },
        None => match place_after(place, is_prerendered) {
            Some(next) => SearchStep::Search { place: next },
            None => SearchStep::GiveUp,
        },
    }
}

/// Decides what follows the search in one place. What lies under the immutable path of
/// the client never changes, and is marked so when it is served.
pub fn search_continues(
    state: &ServeSvelteState,
    request_path: &str,
    place: Place,
    found: Option<u16>,
) -> (step: SearchStep)
    ensures
        step == step_after(
            place,
            found,
            state.prerendered@.contains(request_path@),
            state.immutable_path@.is_prefix_of(request_path@),
        ),
{
    match found {
        Some(status) => {
            let immutable = place == Place::Client && 200 <= status && status < 300 && starts_with(
                request_path,
                state.immutable_path.as_str(),
            );
            SearchStep::Respond { immutable }
        },
        None => match place {
            Place::Client => SearchStep::Search { place: Place::Static },
            Place::Static => if state.prerendered.contains(request_path) {
                SearchStep::Search { place: Place::Prerendered }
            } else {
                SearchStep::GiveUp
            },
            Place::Prerendered => SearchStep::Search { place: Place::PrerenderedHtml },
            Place::PrerenderedHtml => SearchStep::GiveUp,
        },
    }
}

/// The directory of a place.
pub open spec fn directory(state: ServeSvelteState, place: Place) -> Seq<Seq<char>> {
    match place {
        Place::Client => state.client_path@,
        Place::Static => state.static_path@,
        Place::Prerendered => state.prerendered_path@,
        Place::PrerenderedHtml => state.prerendered_path@,
    }
}

/// The path that is looked for in a place.
pub open spec fn path_in(request_path: Seq<char>, place: Place) -> Seq<char> {
    if place == Place::PrerenderedHtml {
        request_uri::html_path(request_path)
    } else {
        request_path
    }
}

/// The path that is looked for in a place.
fn path_for(request_path: &str, place: Place) -> (r: String)
    requires
        request_uri::is_path(request_path@),
    ensures
        r@ == path_in(request_path@, place),
        place != Place::PrerenderedHtml ==> r@ == request_path@,
{
    match place {
        Place::PrerenderedHtml => html_uri(request_path).path,
        _ => request_path.to_owned(),
    }
}

/// What is to be done next to serve static content.
#[derive(Debug)]
pub enum StaticStep {
    /// Serve what lies in a place under the path of a URI.
    Serve { place: Place, uri_path: String, step: PathStep },
    /// Send the response; without one, there is no such static content.
    Done { outcome: Option<Response> },
}

/// What is to be done next to serve static content.
pub enum StaticStage {
    Serve { place: Place, uri_path: Seq<char>, stage: Stage },
    Done { outcome: Option<Reply> },
}

impl View for StaticStep {
    type V = StaticStage;

    open spec fn view(&self) -> StaticStage {
        match self {
            StaticStep::Serve { place, uri_path, step } => StaticStage::Serve {
                place: *place,
                uri_path: uri_path@,
                stage: step@,
            },
            StaticStep::Done { outcome } => StaticStage::Done {
                outcome: serve::optional_reply(*outcome),
            },
        }
    }
}

/// Where the search in a place starts.
pub open spec fn starts_in(
    state: ServeSvelteState,
    request_path: Seq<char>,
    place: Place,
    stage: StaticStage,
) -> bool {
    &&& stage matches StaticStage::Serve { place: at, uri_path, stage: start }
    &&& at == place
    &&& uri_path == path_in(request_path, place)
    &&& serve::is_start(directory(state, place), uri_path, start)
}

fn search_place(state: &ServeSvelteState, request_path: &str, place: Place) -> (step: StaticStep)
    requires
        request_uri::is_path(request_path@),
    ensures
        starts_in(*state, request_path@, place, step@),
{
    let uri_path = path_for(request_path, place);
    let step = match place {
        Place::Client => try_serve_from_path(uri_path.as_str(), &state.client_path),
        Place::Static => try_serve_from_path(uri_path.as_str(), &state.static_path),
        _ => try_serve_from_path(uri_path.as_str(), &state.prerendered_path),
    };
    StaticStep::Serve { place, uri_path, step }
}

/// Starts to look for static content under the path of a request.
pub fn try_serve_static(state: &ServeSvelteState, request_path: &str) -> (step: StaticStep)
    requires
        request_uri::is_path(request_path@),
    ensures
        starts_in(*state, request_path@, Place::Client, step@),
        step matches StaticStep::Serve { place, uri_path, .. } && place == Place::Client
            && uri_path@ == request_path@,
{
    search_place(state, request_path, Place::Client)
}

/// Marks a response as one that never changes.
pub fn mark_immutable(headers: &mut HeaderMap)
    requires
        header_map::has_room(header_map::header_values(*old(headers))),
    ensures
        header_map::header_values(*final(headers)) == serve::with_header(
            header_map::header_values(*old(headers)),
            "cache-control"@,
            "public,max-age=31536000,immutable"@,
        ),
{
    proof {
        reveal_strlit("cache-control");
        reveal_strlit("public,max-age=31536000,immutable");
    }
    add_header(headers, "cache-control", "public,max-age=31536000,immutable");
}

/// A response, marked as one that never changes where it is.
pub open spec fn marked(reply: Reply, immutable: bool) -> Reply {
    if immutable {
        Reply {
            headers: serve::with_header(
                reply.headers,
                "cache-control"@,
                "public,max-age=31536000,immutable"@,
            ),
            ..reply
        }
    } else {
        reply
    }
}

/// The status of an optional response.
pub open spec fn status_of(reply: Option<Reply>) -> Option<u16> {
    match reply {
        Some(reply) => Some(reply.status),
        None => None,
    }
}

/// Goes on once a place was searched: with what was found there, or in the next place.
pub fn place_searched(
    state: &ServeSvelteState,
    request_path: &str,
    place: Place,
    outcome: Option<Response>,
) -> (step: StaticStep)
    requires
        request_uri::is_path(request_path@),
        outcome matches Some(response) ==> header_map::has_room(response@.headers),
    ensures
        match step_after(
            place,
            status_of(serve::optional_reply(outcome)),
            state.prerendered@.contains(request_path@),
            state.immutable_path@.is_prefix_of(request_path@),
        ) {
            SearchStep::Search { place: next } => starts_in(*state, request_path@, next, step@),
            SearchStep::Respond { immutable } => step@ == (StaticStage::Done {
                outcome: Some(marked(outcome->0@, immutable)),
            }),
            SearchStep::GiveUp => step@ == (StaticStage::Done { outcome: None }),
        },
{
    match outcome {
        Some(response) => {
            let mut response = response;
            match search_continues(state, request_path, place, Some(response.status)) {
                SearchStep::Respond { immutable } => {
                    if immutable {
                        mark_immutable(&mut response.headers);
                    }
                },
                _ => {},
            }
            StaticStep::Done { outcome: Some(response) }
        },
        None => match search_continues(state, request_path, place, None) {
            SearchStep::Search { place: next } => search_place(state, request_path, next),
            _ => StaticStep::Done { outcome: None },
        },
    }
}

/// How far a place is from the last one.
pub open spec fn places_left(place: Place) -> nat {
    match place {
        Place::Client => 3,
        Place::Static => 2,
        Place::Prerendered => 1,
        Place::PrerenderedHtml => 0,
    }
}

/// What the search that starts in a place ends with, given what is found in each place.
pub open spec fn search(
    found_in: spec_fn(Place) -> Option<Reply>,
    is_prerendered: bool,
    in_immutable: bool,
    place: Place,
) -> Option<Reply>
    decreases places_left(place),
{
    match step_after(place, status_of(found_in(place)), is_prerendered, in_immutable) {
        SearchStep::Respond { immutable } => Some(marked(found_in(place)->0, immutable)),
        SearchStep::Search { place: next } => if places_left(next) < places_left(place) {
            search(found_in, is_prerendered, in_immutable, next)
        } else {
            None
        },
        SearchStep::GiveUp => None,
    }
}

/// What the client has comes before what is static, and that before the pages that were
/// rendered ahead, which are served only under the paths that are known to have one.
/// Nothing but a success of the client, under the immutable path, is ever marked as never
/// changing.
pub proof fn law_search_precedence(
    found_in: spec_fn(Place) -> Option<Reply>,
    is_prerendered: bool,
    in_immutable: bool,
)
    ensures
        search(found_in, is_prerendered, in_immutable, Place::Client) == (match found_in(
            Place::Client,
        ) {
            Some(reply) => Some(marked(reply, is_success(reply.status) && in_immutable)),
            None => if found_in(Place::Static) is Some {
                found_in(Place::Static)
            } else if !is_prerendered {
                None
            } else if found_in(Place::Prerendered) is Some {
                found_in(Place::Prerendered)
            } else {
                found_in(Place::PrerenderedHtml)
            },
        }),
{
    reveal_with_fuel(search, 4);
}

/// A `HEAD` request for static content is answered like a `GET` request for it, as long as
/// each place answers both alike.
pub proof fn law_head_search_is_like_get(
    get: spec_fn(Place) -> Option<Reply>,
    head: spec_fn(Place) -> Option<Reply>,
    is_prerendered: bool,
    in_immutable: bool,
)
    requires
        forall|place: Place| serve::are_alike(#[trigger] get(place), head(place)),
    ensures
        serve::are_alike(
            search(get, is_prerendered, in_immutable, Place::Client),
            search(head, is_prerendered, in_immutable, Place::Client),
        ),
{
    law_search_precedence(get, is_prerendered, in_immutable);
    law_search_precedence(head, is_prerendered, in_immutable);
    assert(serve::are_alike(get(Place::Client), head(Place::Client)));
    assert(serve::are_alike(get(Place::Static), head(Place::Static)));
    assert(serve::are_alike(get(Place::Prerendered), head(Place::Prerendered)));
    assert(serve::are_alike(get(Place::PrerenderedHtml), head(Place::PrerenderedHtml)));
}

/// The client, the static and the prerendered content are looked for under the path of the
/// request as it is. Only the last search differs, which is for an `.html` file, under the
/// path without a slash at its end. The last two searches are in the same directory.
pub proof fn law_paths_of_the_places(state: ServeSvelteState, path: Seq<char>)
    ensures
        path_in(path, Place::Client) == path,
        path_in(path, Place::Static) == path,
        path_in(path, Place::Prerendered) == path,
        path.len() == 0 || path.last() != '/' ==> path_in(path, Place::PrerenderedHtml) == path
            + ".html"@,
        path.len() == 0 || path.last() != '/' ==> path_in(path.push('/'), Place::PrerenderedHtml)
            == path + ".html"@,
        directory(state, Place::Client) == state.client_path@,
        directory(state, Place::Static) == state.static_path@,
        directory(state, Place::Prerendered) == state.prerendered_path@,
        directory(state, Place::PrerenderedHtml) == state.prerendered_path@,
{
    if path.len() == 0 || path.last() != '/' {
        request_uri::law_pages_are_html_files(path);
    }
}

/// A response that is marked says, behind all that it says about caching, that it never
/// changes; all else stays as it is. A response that is not marked stays as it is.
pub proof fn law_marks(reply: Reply, name: Seq<char>)
    ensures
        marked(reply, false) == reply,
        marked(reply, true).status == reply.status,
        marked(reply, true).body == reply.body,
        header_map::values_of(marked(reply, true).headers, "cache-control"@)
            == header_map::values_of(reply.headers, "cache-control"@).push(
            vstd::utf8::encode_utf8("public,max-age=31536000,immutable"@),
        ),
        name != "cache-control"@ ==> header_map::values_of(marked(reply, true).headers, name)
            == header_map::values_of(reply.headers, name),
{
}

/// What follows the search in each place: a find ends it, and is marked exactly where the
/// client answered with a status from 200 to 299 under the immutable path. Otherwise the next
/// place is searched; pages that were rendered ahead only under the paths that have one.
pub proof fn law_steps_of_the_search(status: u16, is_prerendered: bool, in_immutable: bool)
    ensures
        step_after(Place::Client, Some(status), is_prerendered, in_immutable)
            == (SearchStep::Respond {
            immutable: in_immutable && 200 <= status <= 299,
        }),
        step_after(Place::Static, Some(status), is_prerendered, in_immutable)
            == (SearchStep::Respond { immutable: false }),
        step_after(Place::Prerendered, Some(status), is_prerendered, in_immutable)
            == (SearchStep::Respond { immutable: false }),
        step_after(Place::PrerenderedHtml, Some(status), is_prerendered, in_immutable)
            == (SearchStep::Respond { immutable: false }),
        step_after(Place::Client, None, is_prerendered, in_immutable) == (SearchStep::Search {
            place: Place::Static,
        }),
        step_after(Place::Static, None, true, in_immutable) == (SearchStep::Search {
            place: Place::Prerendered,
        }),
        step_after(Place::Static, None, false, in_immutable) == SearchStep::GiveUp,
        step_after(Place::Prerendered, None, is_prerendered, in_immutable)
            == (SearchStep::Search { place: Place::PrerenderedHtml }),
        step_after(Place::PrerenderedHtml, None, is_prerendered, in_immutable)
            == SearchStep::GiveUp,
{
}

/// Whether this is what the search for a request in a place finds.
pub open spec fn is_found_in(
    fs: FileSystem,
    state: ServeSvelteState,
    opened: bool,
    request: FileRequest,
    request_path: Seq<char>,
    place: Place,
    found: Option<Reply>,
) -> bool {
    exists|uri_path: Seq<char>, stage: Stage| #[trigger]
        starts_in(state, request_path, place, StaticStage::Serve { place, uri_path, stage })
            && found == serve::run(fs, uri_path, opened, request, stage)
}

/// The path of a request that spells names, with a slash at its end or without one.
pub open spec fn spelled(names: Seq<Seq<char>>, slash: bool) -> Seq<char> {
    if slash && names.len() > 0 {
        (seq!['/'] + text::joined(names, '/')).push('/')
    } else {
        seq!['/'] + text::joined(names, '/')
    }
}

proof fn lemma_start_in_place(
    state: ServeSvelteState,
    request_path: Seq<char>,
    names: Seq<Seq<char>>,
    slash: bool,
    place: Place,
    uri_path: Seq<char>,
    stage: Stage,
)
    requires
        forall|i: int| 0 <= i < names.len() ==> path::is_spellable(#[trigger] names[i]),
        uri_path == spelled(names, slash),
        starts_in(state, request_path, place, StaticStage::Serve { place, uri_path, stage }),
    ensures
        stage == (Stage::CheckDirectory { path: directory(state, place) + names }),
{
    let found = choose|found: Option<Seq<Seq<char>>>| #[trigger]
        path::is_file_path(directory(state, place), uri_path, found) && stage == serve::start_of(
            found,
        );
    path::law_spelled_names_are_found(
        directory(state, place),
        names,
        slash && names.len() > 0,
        found,
    );
}

/// A file that lies in the directory of the client, in that of the static content, or in that
/// of the pages that were rendered ahead is found under the path that spells its names. The
/// `index.html` of a directory is found under the path of the directory with a slash at its
/// end, and without the slash nothing is.
pub proof fn law_files_are_found_under_their_names(
    fs: FileSystem,
    state: ServeSvelteState,
    opened: bool,
    request: FileRequest,
    names: Seq<Seq<char>>,
    slash: bool,
    place: Place,
    found: Option<Reply>,
)
    requires
        request.encodings.len() <= usize::MAX,
        place == Place::Client || place == Place::Static || place == Place::Prerendered,
        forall|i: int| 0 <= i < names.len() ==> path::is_spellable(#[trigger] names[i]),
        is_found_in(fs, state, opened, request, spelled(names, slash), place, found),
    ensures
        ({
            let base = match place {
                Place::Client => state.client_path@,
                Place::Static => state.static_path@,
                _ => state.prerendered_path@,
            };
            let path = base + names;
            &&& !(fs.is_dir)(path) ==> found == serve::served(fs, opened, request, path)
            &&& (fs.is_dir)(path) && (slash || names.len() == 0) ==> found == serve::served(
                fs,
                opened,
                request,
                path.push("index.html"@),
            )
            &&& (fs.is_dir)(path) && !slash && names.len() > 0 ==> found is None
        }),
{
    let request_path = spelled(names, slash);
    law_paths_of_the_places(state, request_path);
    let (uri_path, stage) = choose|uri_path: Seq<char>, stage: Stage| #[trigger]
        starts_in(state, request_path, place, StaticStage::Serve { place, uri_path, stage })
            && found == serve::run(fs, uri_path, opened, request, stage);
    assert(uri_path == request_path);
    lemma_start_in_place(state, request_path, names, slash, place, uri_path, stage);
    let path = directory(state, place) + names;
    serve::law_directories_have_an_index(fs, uri_path, opened, request, path);
    if names.len() > 0 && !slash {
        let joined = text::joined(names, '/');
        assert(path::is_spellable(names[names.len() - 1]));
        lemma_last_of_joined(names);
        assert(uri_path.last() == joined.last());
    } else if names.len() == 0 {
        assert(uri_path =~= seq!['/']);
    }
}

proof fn lemma_last_of_joined(names: Seq<Seq<char>>)
    requires
        names.len() > 0,
        path::is_safe_name(names.last()),
    ensures
        text::joined(names, '/').len() > 0,
        text::joined(names, '/').last() != '/',
{
    let last = names.last();
    assert(last.contains(last.last()));
    assert(text::joined(names, '/').last() == last.last());
}

/// A page that was rendered ahead is found under the path that spells its names without
/// `.html`, with a slash at its end or without one.
pub proof fn law_pages_are_found_without_their_ending(
    fs: FileSystem,
    state: ServeSvelteState,
    opened: bool,
    request: FileRequest,
    names: Seq<Seq<char>>,
    slash: bool,
    found: Option<Reply>,
)
    requires
        request.encodings.len() <= usize::MAX,
        names.len() > 0,
        forall|i: int| 0 <= i < names.len() ==> path::is_spellable(#[trigger] names[i]),
        is_found_in(
            fs,
            state,
            opened,
            request,
            spelled(names, slash),
            Place::PrerenderedHtml,
            found,
        ),
        !(fs.is_dir)(
            (state.prerendered_path@ + names.drop_last()).push(names.last() + ".html"@),
        ),
    ensures
        found == serve::served(
            fs,
            opened,
            request,
            (state.prerendered_path@ + names.drop_last()).push(names.last() + ".html"@),
        ),
{
    reveal_strlit(".html");
    reveal_strlit(".");
    reveal_strlit("..");
    let place = Place::PrerenderedHtml;
    let request_path = spelled(names, slash);
    let plain = seq!['/'] + text::joined(names, '/');
    let last = names.last();
    assert(path::is_spellable(names[names.len() - 1]));
    lemma_last_of_joined(names);
    assert(plain.last() == text::joined(names, '/').last());
    law_paths_of_the_places(state, plain);
    let (uri_path, stage) = choose|uri_path: Seq<char>, stage: Stage| #[trigger]
        starts_in(state, request_path, place, StaticStage::Serve { place, uri_path, stage })
            && found == serve::run(fs, uri_path, opened, request, stage);
    let pages = names.drop_last().push(last + ".html"@);
    text::lemma_joined_end(names, '/', ".html"@);
    assert(uri_path == plain + ".html"@);
    assert(plain + ".html"@ =~= spelled(pages, false));
    assert forall|i: int| 0 <= i < pages.len() implies path::is_spellable(#[trigger] pages[i]) by {
        if i < names.len() - 1 {
            assert(pages[i] == names[i]);
        } else {
            let page = last + ".html"@;
            assert(pages[i] == page);
            assert forall|c: char| page.contains(c) implies last.contains(c) || ".html"@.contains(
                c,
            ) by {
                let k = choose|k: int| 0 <= k < page.len() && page[k] == c;
                if k < last.len() {
                    assert(last[k] == c);
                } else {
                    assert(".html"@[k - last.len()] == c);
                }
            }
            assert(page.len() >= 6);
            if path::has_drive(page) {
                if last.len() >= 2 {
                    assert(page[1] == last[1]);
                    assert(page[0] == last[0]);
                } else {
                    assert(page[1] == ".html"@[0]);
                }
            }
        }
    }
    lemma_start_in_place(state, request_path, pages, false, place, uri_path, stage);
    let path = state.prerendered_path@ + pages;
    assert(path =~= (state.prerendered_path@ + names.drop_last()).push(last + ".html"@));
    serve::law_directories_have_an_index(fs, uri_path, opened, request, path);
}

/// Where a path with a slash at its end is known to have a page, where neither the client nor
/// the static content has anything there, and where the prerendered content has a directory
/// there with an `index.html`, the search ends with that file.
pub proof fn law_prerendered_index_is_served(
    fs: FileSystem,
    state: ServeSvelteState,
    opened: bool,
    request: FileRequest,
    names: Seq<Seq<char>>,
    found_in: spec_fn(Place) -> Option<Reply>,
    in_immutable: bool,
    meta: FileMeta,
)
    requires
        forall|i: int| 0 <= i < names.len() ==> path::is_spellable(#[trigger] names[i]),
        found_in(Place::Client) is None,
        found_in(Place::Static) is None,
        is_found_in(
            fs,
            state,
            opened,
            request,
            spelled(names, true),
            Place::Prerendered,
            found_in(Place::Prerendered),
        ),
        (fs.is_dir)(state.prerendered_path@ + names),
        (fs.open)((state.prerendered_path@ + names).push("index.html"@)) == Ok::<
            FileMeta,
            FileError,
        >(meta),
        request.encodings.len() == 0,
        request.if_unmodified_since is None,
        request.if_modified_since is None,
        request.range is None,
    ensures
        ({
            let reply = search(found_in, true, in_immutable, Place::Client);
            &&& reply is Some
            &&& reply->0.status == 200
            &&& header_map::values_of(reply->0.headers, "content-length"@) == serve::only(
                text::decimal(meta.len as nat),
            )
            &&& header_map::values_of(reply->0.headers, "content-type"@) == serve::only(
                media_type::mime_of("index.html"@),
            )
            &&& header_map::values_of(reply->0.headers, "cache-control"@).len() == 0
            &&& opened ==> reply->0.body == (Body::File {
                capacity: request.buf_chunk_size,
                limit: None,
            })
        }),
{
    law_search_precedence(found_in, true, in_immutable);
    law_files_are_found_under_their_names(
        fs,
        state,
        opened,
        request,
        names,
        true,
        Place::Prerendered,
        found_in(Place::Prerendered),
    );
    let directory = state.prerendered_path@ + names;
    serve::law_file_as_it_is(fs, opened, request, directory, "index.html"@);
    lemma_no_cache_control(fs, opened, request, directory, "index.html"@, meta);
}

proof fn lemma_no_cache_control(
    fs: FileSystem,
    opened: bool,
    request: FileRequest,
    directory: Seq<Seq<char>>,
    name: Seq<char>,
    meta: FileMeta,
)
    requires
        (fs.open)(directory.push(name)) == Ok::<FileMeta, FileError>(meta),
        request.encodings.len() == 0,
        request.if_unmodified_since is None,
        request.if_modified_since is None,
        request.range is None,
    ensures
        header_map::values_of(
            serve::served(fs, opened, request, directory.push(name))->0.headers,
            "cache-control"@,
        ).len() == 0,
{
    reveal_strlit("cache-control");
    reveal_strlit("content-type");
    reveal_strlit("accept-ranges");
    reveal_strlit("content-encoding");
    reveal_strlit("last-modified");
    reveal_strlit("content-range");
    reveal_strlit("content-length");
    assert("cache-control"@[1] == 'a');
    assert("cache-control"@.len() == 13);
    assert("accept-ranges"@[1] == 'c');
    assert("last-modified"@[0] == 'l');
    assert("cache-control"@[0] == 'c');
    assert("content-range"@[1] == 'o');
    crate::file::law_variants_lie_beside_the_file(directory, name);
    serve::law_found_file_is_answered(fs, opened, request, directory, name, meta, None);
    serve::law_no_other_headers(
        Ok(None),
        request.buf_chunk_size,
        opened,
        None,
        crate::headers::modified_seconds(meta.modified),
        media_type::mime_of(name),
        meta.len,
        "cache-control"@,
    );
}

/// A file of the client is served under its path before anything else is looked for, and is
/// marked as one that never changes exactly where its path starts with the immutable path.
pub proof fn law_client_file_is_served(
    fs: FileSystem,
    state: ServeSvelteState,
    opened: bool,
    request: FileRequest,
    directory: Seq<Seq<char>>,
    name: Seq<char>,
    found_in: spec_fn(Place) -> Option<Reply>,
    is_prerendered: bool,
    in_immutable: bool,
    meta: FileMeta,
)
    requires
        forall|i: int| 0 <= i < directory.len() ==> path::is_spellable(#[trigger] directory[i]),
        path::is_spellable(name),
        is_found_in(
            fs,
            state,
            opened,
            request,
            spelled(directory.push(name), false),
            Place::Client,
            found_in(Place::Client),
        ),
        !(fs.is_dir)((state.client_path@ + directory).push(name)),
        (fs.open)((state.client_path@ + directory).push(name)) == Ok::<FileMeta, FileError>(meta),
        request.encodings.len() == 0,
        request.if_unmodified_since is None,
        request.if_modified_since is None,
        request.range is None,
    ensures
        ({
            let reply = search(found_in, is_prerendered, in_immutable, Place::Client);
            &&& reply is Some
            &&& reply->0.status == 200
            &&& header_map::values_of(reply->0.headers, "content-length"@) == serve::only(
                text::decimal(meta.len as nat),
            )
            &&& header_map::values_of(reply->0.headers, "cache-control"@) == (if in_immutable {
                serve::only("public,max-age=31536000,immutable"@)
            } else {
                Seq::empty()
            })
            &&& opened ==> reply->0.body == (Body::File {
                capacity: request.buf_chunk_size,
                limit: None,
            })
        }),
{
    reveal_strlit("cache-control");
    reveal_strlit("content-length");
    assert("cache-control"@.len() != "content-length"@.len());
    let names = directory.push(name);
    let base = state.client_path@ + directory;
    law_search_precedence(found_in, is_prerendered, in_immutable);
    assert forall|i: int| 0 <= i < names.len() implies path::is_spellable(#[trigger] names[i]) by {
        if i < directory.len() {
            assert(names[i] == directory[i]);
        }
    }
    law_files_are_found_under_their_names(
        fs,
        state,
        opened,
        request,
        names,
        false,
        Place::Client,
        found_in(Place::Client),
    );
    assert(state.client_path@ + names =~= base.push(name));
    serve::law_file_as_it_is(fs, opened, request, base, name);
    lemma_no_cache_control(fs, opened, request, base, name, meta);
    let reply = found_in(Place::Client)->0;
    law_marks(reply, "content-length"@);
    let mark = vstd::utf8::encode_utf8("public,max-age=31536000,immutable"@);
    assert(Seq::<Seq<u8>>::empty().push(mark) =~= seq![mark]);
}

} // verus!

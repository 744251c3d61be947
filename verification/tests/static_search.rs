use http::header::HeaderMap;
use sveltum::layer::{place_answered, static_serve, try_serve_from};
use sveltum::path::FilePath;
use sveltum::response::{response_with_status, Response, ResponseBody};
use sveltum::runtime::InitializedResponse;
use sveltum::serve::PathStep;
use sveltum::static_files::{
    mark_immutable, place_searched, search_continues, try_serve_static, Place, SearchStep,
    ServeSvelteState, StaticStep,
};

const IMMUTABLE: &str = "public,max-age=31536000,immutable";

fn state() -> ServeSvelteState {
    let prerendered = vec!["/about".to_string(), "/".to_string()];
    ServeSvelteState::new(InitializedResponse::new(prerendered, "/_app".to_string()))
}

fn started(step: StaticStep) -> (Place, String, FilePath) {
    match step {
        StaticStep::Serve { place, uri_path, step: PathStep::CheckDirectory { path } } => {
            (place, uri_path, path)
        }
        other => panic!("{other:?}"),
    }
}

fn found(step: StaticStep) -> Option<Response> {
    match step {
        StaticStep::Done { outcome } => outcome,
        other => panic!("{other:?}"),
    }
}

fn cache_control(response: &Response) -> Option<&str> {
    response.headers.get("cache-control").map(|value| value.to_str().unwrap())
}

#[test]
fn the_state_names_the_directories() {
    let state = state();
    assert_eq!(state.immutable_path, "/_app/immutable");
    assert_eq!(state.client_path.segments, vec!["client"]);
    assert_eq!(state.static_path.segments, vec!["static"]);
    assert_eq!(state.prerendered_path.segments, vec!["prerendered"]);
    assert!(state.prerendered.contains("/about"));
    assert!(state.prerendered.contains("/"));
    assert!(!state.prerendered.contains("/missing"));
}

#[test]
fn repeated_routes_are_kept_once() {
    let routes = vec!["/a".to_string(), "/a".to_string()];
    let init = InitializedResponse::new(routes, "app".to_string());
    assert_eq!(init.prerendered.len(), 1);
    assert_eq!(init.app_path, "app");
}

#[test]
fn the_client_is_searched_first() {
    let (place, uri_path, path) = started(try_serve_static(&state(), "/a.js"));
    assert_eq!(place, Place::Client);
    assert_eq!(uri_path, "/a.js");
    assert_eq!(path.segments, vec!["client", "a.js"]);
}

#[test]
fn places_are_searched_in_order() {
    let state = state();
    let (place, uri_path, path) = started(place_searched(&state, "/about", Place::Client, None));
    assert_eq!((place, uri_path.as_str()), (Place::Static, "/about"));
    assert_eq!(path.segments, vec!["static", "about"]);
    let (place, uri_path, path) = started(place_searched(&state, "/about", Place::Static, None));
    assert_eq!((place, uri_path.as_str()), (Place::Prerendered, "/about"));
    assert_eq!(path.segments, vec!["prerendered", "about"]);
    let (place, uri_path, path) =
        started(place_searched(&state, "/about", Place::Prerendered, None));
    assert_eq!((place, uri_path.as_str()), (Place::PrerenderedHtml, "/about.html"));
    assert_eq!(path.segments, vec!["prerendered", "about.html"]);
    assert!(found(place_searched(&state, "/about", Place::PrerenderedHtml, None)).is_none());
}

#[test]
fn only_known_pages_are_rendered_ahead() {
    assert!(found(place_searched(&state(), "/missing", Place::Static, None)).is_none());
}

#[test]
fn refused_paths_lead_to_the_next_place() {
    assert!(matches!(
        try_serve_static(&state(), "/../a"),
        StaticStep::Serve { place: Place::Client, step: PathStep::Done { outcome: None }, .. }
    ));
}

#[test]
fn successes_of_the_client_under_the_immutable_path_are_marked() {
    let state = state();
    let path = "/_app/immutable/a.js";
    for (status, marked) in [(200, true), (206, true), (304, false), (416, false), (500, false)] {
        let outcome = Some(response_with_status(status));
        let response = found(place_searched(&state, path, Place::Client, outcome)).unwrap();
        assert_eq!(response.status, status);
        assert_eq!(cache_control(&response), if marked { Some(IMMUTABLE) } else { None });
    }
}

#[test]
fn nothing_else_is_marked() {
    let state = state();
    let response = found(place_searched(
        &state,
        "/_app/version.json",
        Place::Client,
        Some(response_with_status(200)),
    ));
    assert_eq!(cache_control(&response.unwrap()), None);
    let response = found(place_searched(
        &state,
        "/_app/immutable/a.js",
        Place::Static,
        Some(response_with_status(200)),
    ));
    assert_eq!(cache_control(&response.unwrap()), None);
}

#[test]
fn marks_come_behind_other_values() {
    let mut headers = HeaderMap::new();
    headers.append("cache-control", "no-transform".parse().unwrap());
    mark_immutable(&mut headers);
    let values: Vec<_> = headers.get_all("cache-control").iter().collect();
    assert_eq!(values, vec!["no-transform", IMMUTABLE]);
}

#[test]
fn what_follows_a_search() {
    let state = state();
    assert_eq!(
        search_continues(&state, "/about", Place::Static, None),
        SearchStep::Search { place: Place::Prerendered }
    );
    assert_eq!(
        search_continues(&state, "/_app/immutable/x", Place::Client, Some(200)),
        SearchStep::Respond { immutable: true }
    );
    assert_eq!(
        search_continues(&state, "/_app/immutable/x", Place::Prerendered, Some(200)),
        SearchStep::Respond { immutable: false }
    );
    assert_eq!(
        search_continues(&state, "/other", Place::Static, None),
        SearchStep::GiveUp
    );
}

#[test]
fn only_not_found_goes_to_the_next_service() {
    let state = state();
    assert_eq!(
        place_answered(&state, "/about", Place::Client, 404),
        SearchStep::Search { place: Place::Static }
    );
    assert_eq!(
        place_answered(&state, "/about", Place::Client, 405),
        SearchStep::Respond { immutable: false }
    );
    assert_eq!(
        place_answered(&state, "/_app/immutable/a", Place::Client, 200),
        SearchStep::Respond { immutable: true }
    );
    assert_eq!(
        place_answered(&state, "/about", Place::PrerenderedHtml, 404),
        SearchStep::GiveUp
    );
}

#[test]
fn only_files_are_served_whole() {
    assert_eq!(try_serve_from("/i", "/i/a", true, false), None);
    assert_eq!(try_serve_from("/i", "/i/a", true, true), Some(true));
    assert_eq!(try_serve_from("/i", "/i/a", false, true), Some(false));
    assert_eq!(try_serve_from("/i", "/a", true, true), Some(false));
}

#[test]
fn whole_files_are_answered() {
    let response = static_serve("page.html", vec![1, 2, 3], true);
    assert_eq!(response.status, 200);
    assert_eq!(response.headers.get("content-type").unwrap(), "text/html");
    assert_eq!(cache_control(&response), Some(IMMUTABLE));
    assert!(matches!(response.body, ResponseBody::Bytes(bytes) if bytes == vec![1, 2, 3]));
    let response = static_serve("data", vec![], false);
    assert_eq!(response.headers.get("content-type").unwrap(), "application/octet-stream");
    assert_eq!(cache_control(&response), None);
}

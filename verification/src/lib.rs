//! The logic of a server for SvelteKit apps: which file answers a request and in which
//! encoding, which responses conditions and ranges lead to, when a request goes to the
//! app, and how the server that runs the app works off its requests.
//!
//! The library decides; reading files, sending bytes and running the app is up to its
//! callers. Where a decision depends on what the file system or the app answers, it comes
//! in steps: a step says what is to be done, and a function takes what came of it and gives
//! the next step.

pub mod content_encoding;
pub mod dynamic;
pub mod file;
pub mod header_map;
pub mod headers;
pub mod layer;
pub mod media_type;
pub mod open_file;
pub mod path;
pub mod queue;
pub mod ranges;
pub mod request;
pub mod request_uri;
pub mod response;
pub mod runtime;
pub mod serve;
pub mod service;
pub mod static_files;
pub mod text;

//! Opening a file for a request, with a redirect for a directory that is referenced by its
//! name.
use crate::content_encoding::{self, Encoding, QValue};
use crate::file::{self, apply_file_extension, variant_path, FileError, FileErrorKind, FileMeta};
use crate::header_map;
use crate::headers::{
    self, failed_condition, FailedCondition, IfModifiedSince, IfUnmodifiedSince, LastModified,
};
use crate::media_type::{self, mime_for};
use crate::path::FilePath;
use crate::ranges::{self, try_parse_range, ByteRange, UnsatisfiableRange};
use crate::request::{self, reads_metadata_only};
use crate::request_uri::{self, RequestUri, UriParts};
use crate::response::visible_value;
use crate::serve;
use crate::text::{self, ends_with};
use http::header::HeaderValue;
use vstd::prelude::*;

verus! {

/// How a request for a file ends.
#[derive(Debug)]
pub enum OpenFileOutput {
    FileOpened(Box<FileOpened>),
    Redirect { location: HeaderValue },
    FileNotFound,
    PreconditionFailed,
    NotModified,
    InvalidRedirectUri,
}

/// A file that is to be sent.
#[derive(Debug)]
pub struct FileOpened {
    pub extent: FileRequestExtent,
    pub chunk_size: usize,
    pub mime_header_value: HeaderValue,
    pub maybe_encoding: Option<Encoding>,
    pub maybe_range: Option<Result<Vec<ByteRange>, UnsatisfiableRange>>,
    pub last_modified: Option<LastModified>,
}

/// How much of a file was asked for.
#[derive(Copy, Clone, Debug, PartialEq, Eq, Structural)]
pub enum FileRequestExtent {
    /// What it holds; the file was opened.
    Full(FileMeta),
    /// Only what is known of it.
    Head(FileMeta),
}

/// What a request asks of a file.
#[derive(Debug)]
pub struct OpenFileSettings {
    pub if_unmodified_since: Option<IfUnmodifiedSince>,
    pub if_modified_since: Option<IfModifiedSince>,
    pub negotiated_encodings: Vec<(Encoding, QValue)>,
    pub range_header: Option<String>,
    pub buf_chunk_size: usize,
}

/// How a conditional request ends whose condition fails.
pub open spec fn condition_output(failed: Option<FailedCondition>) -> Option<OpenFileOutput> {
    match failed {
        Some(FailedCondition::PreconditionFailed) => Some(OpenFileOutput::PreconditionFailed),
        Some(FailedCondition::NotModified) => Some(OpenFileOutput::NotModified),
        None => None,
    }
}

/// Checks the conditions of a request against the time at which a file was modified.
pub fn check_modified_headers(
    modified: Option<LastModified>,
    if_unmodified_since: Option<IfUnmodifiedSince>,
    if_modified_since: Option<IfModifiedSince>,
) -> (output: Option<OpenFileOutput>)
    ensures
        output == condition_output(
            headers::condition_failing(
                headers::modified_seconds(modified),
                headers::if_unmodified_seconds(if_unmodified_since),
                headers::if_modified_seconds(if_modified_since),
            ),
        ),
{
    match failed_condition(modified, if_unmodified_since, if_modified_since) {
        Some(FailedCondition::PreconditionFailed) => Some(OpenFileOutput::PreconditionFailed),
        Some(FailedCondition::NotModified) => Some(OpenFileOutput::NotModified),
        None => None,
    }
}

/// Finds the preferred encoding, and turns the path into that of the file in this
/// encoding.
pub fn preferred_encoding(
    path: &mut FilePath,
    negotiated_encoding: &Vec<(Encoding, QValue)>,
) -> (r: Option<Encoding>)
    ensures
        r == content_encoding::best_encoding(negotiated_encoding@),
        final(path)@ == file::variant(old(path)@, r),
{
    let preferred = Encoding::preferred_encoding(negotiated_encoding);
    if let Some(encoding) = preferred {
        if let Some(extension) = encoding.to_file_extension() {
            apply_file_extension(path, extension);
        }
    }
    preferred
}

/// The URI with a slash at the end of its path. A URI with an authority but without a
/// scheme has none.
pub fn append_slash_on_path(uri: &RequestUri) -> (r: Result<RequestUri, OpenFileOutput>)
    requires
        uri@.wf(),
    ensures
        match r {
            Ok(slashed) => {
                &&& uri.scheme is Some == uri.authority is Some
                &&& slashed@ == (UriParts { path: uri@.path + seq!['/'], ..uri@ })
            },
            Err(output) => {
                &&& uri.scheme is Some != uri.authority is Some
                &&& output == OpenFileOutput::InvalidRedirectUri
            },
        },
{
    match uri.with_slash() {
        Some(uri) => Ok(uri),
        None => Err(OpenFileOutput::InvalidRedirectUri),
    }
}

/// Whether an output is the redirect to the URI with a slash at the end of its path, or the
/// error where there is none.
pub open spec fn is_redirect(uri: UriParts, output: OpenFileOutput) -> bool {
    if uri.scheme is Some == uri.authority is Some {
        &&& output matches OpenFileOutput::Redirect { location }
        &&& header_map::value_bytes(location) == vstd::utf8::encode_utf8(
            (UriParts { path: uri.path + seq!['/'], ..uri }).text(),
        )
    } else {
        output == OpenFileOutput::InvalidRedirectUri
    }
}

proof fn lemma_slashed_printable(uri: UriParts)
    requires
        header_map::is_printable(uri.text()),
    ensures
        header_map::is_printable((UriParts { path: uri.path + seq!['/'], ..uri }).text()),
{
    let slashed = UriParts { path: uri.path + seq!['/'], ..uri };
    let before = slashed.text();
    let whole = uri.text();
    let start = whole.len() - request_uri::path_and_query(uri.path, uri.query).len()
        + uri.path.len();
    assert forall|i: int| 0 <= i < before.len() implies (#[trigger] before[i]) as u32 >= 32
        && before[i] as u32 != 127 by {
        if i < start {
            assert(before[i] == whole[i]);
        } else if i > start {
            assert(before[i] == whole[i - 1]);
        }
    }
}

/// Whether a request is redirected: there is a directory under the path, which is
/// referenced by its name, and there is a URI with a slash at the end of its path.
pub open spec fn redirects(uri: UriParts, is_dir: bool) -> bool {
    is_dir && !serve::has_trailing_slash(uri.path) && uri.scheme is Some == uri.authority is Some
}

/// Goes on where it is known whether there is a directory under the path. For a directory
/// the path becomes that of its index; where the directory is referenced by its name, the
/// request is redirected to the path with a slash.
pub fn maybe_redirect_or_append_path(
    path_to_file: &mut FilePath,
    uri: &RequestUri,
    is_dir: bool,
    append_index_html_on_directories: bool,
) -> (output: Option<OpenFileOutput>)
    requires
        append_index_html_on_directories && is_dir && !serve::has_trailing_slash(uri@.path)
            ==> uri@.wf(),
        append_index_html_on_directories && redirects(uri@, is_dir) ==> header_map::is_printable(
            uri@.text(),
        ),
    ensures
        if !is_dir {
            output is None && final(path_to_file)@ == old(path_to_file)@
        } else if !append_index_html_on_directories {
            output == Some(OpenFileOutput::FileNotFound) && final(path_to_file)@ == old(
                path_to_file,
            )@
        } else if serve::has_trailing_slash(uri@.path) {
            output is None && final(path_to_file)@ == old(path_to_file)@.push("index.html"@)
        } else {
            &&& output matches Some(output)
            &&& is_redirect(uri@, output)
            &&& final(path_to_file)@ == old(path_to_file)@
        },
{
    if !is_dir {
        return None;
    }
    if !append_index_html_on_directories {
        return Some(OpenFileOutput::FileNotFound);
    }
    if ends_with(uri.path.as_str(), '/') {
        let ghost segments = path_to_file.segments@;
        path_to_file.segments.push("index.html".to_owned());
        assert(path_to_file@ =~= text::texts(segments).push("index.html"@));
        None
    } else {
        let slashed = match append_slash_on_path(uri) {
            Ok(slashed) => slashed,
            Err(output) => {
                return Some(output);
            },
        };
        proof {
            lemma_slashed_printable(uri@);
            header_map::lemma_printable(slashed@.text());
        }
        match HeaderValue::from_str(slashed.to_text().as_str()) {
            Ok(location) => Some(OpenFileOutput::Redirect { location }),
            Err(_) => vstd::pervasive::unreached(),
        }
    }
}

/// The choices of other encodings.
pub open spec fn others(choices: Seq<(Encoding, QValue)>, encoding: Encoding) -> Seq<
    (Encoding, QValue),
>
    decreases choices.len(),
{
    if choices.len() == 0 {
        choices
    } else {
        let front = others(choices.drop_last(), encoding);
        if choices.last().0 == encoding {
            front
        } else {
            front.push(choices.last())
        }
    }
}

/// Removes an encoding from those that are negotiated.
fn without(choices: &Vec<(Encoding, QValue)>, encoding: Encoding) -> (r: Vec<(Encoding, QValue)>)
    ensures
        r@ == others(choices@, encoding),
{
    let mut r: Vec<(Encoding, QValue)> = Vec::new();
    let mut at: usize = 0;
    assert(choices@.take(0) =~= Seq::<(Encoding, QValue)>::empty());
    while at < choices.len()
        invariant
            at <= choices.len(),
            r@ == others(choices@.take(at as int), encoding),
        decreases choices.len() - at,
    {
        proof {
            let more = choices@.take(at + 1);
            assert(more.drop_last() =~= choices@.take(at as int));
            assert(more.last() == choices@[at as int]);
        }
        if choices[at].0 != encoding {
            r.push(choices[at]);
        }
        at = at + 1;
    }
    assert(choices@.take(at as int) =~= choices@);
    r
}

/// One attempt to open a file.
#[derive(Debug)]
pub struct OpenAttempt {
    /// The path of the file as it is.
    pub path: FilePath,
    /// The encodings that were not tried yet, with the one of this attempt.
    pub remaining: Vec<(Encoding, QValue)>,
    /// The file to open.
    pub candidate: FilePath,
    /// The encoding of what it holds, where it was asked for in one.
    pub encoding: Option<Encoding>,
}

/// Whether an attempt is the one to make next for a file, with these encodings left.
pub open spec fn is_attempt(
    attempt: OpenAttempt,
    path: Seq<Seq<char>>,
    remaining: Seq<(Encoding, QValue)>,
) -> bool {
    &&& attempt.path@ == path
    &&& attempt.remaining@ == remaining
    &&& attempt.encoding == content_encoding::best_encoding(remaining)
    &&& attempt.candidate@ == file::variant(path, attempt.encoding)
}

fn next_attempt(path: FilePath, remaining: Vec<(Encoding, QValue)>) -> (attempt: OpenAttempt)
    ensures
        is_attempt(attempt, path@, remaining@),
{
    let mut candidate = variant_path(&path, None);
    let encoding = preferred_encoding(&mut candidate, &remaining);
    OpenAttempt { path, remaining, candidate, encoding }
}

/// What is to be done next to open a file.
#[derive(Debug)]
pub enum OpenStep {
    /// Open the file, or read its metadata for a `HEAD` request.
    Open { attempt: OpenAttempt },
    /// Go to a position in the opened file.
    Seek { start: u64, opened: FileOpened },
    /// The request ends.
    Done { output: OpenFileOutput },
    /// The request fails.
    Failed { error: FileError },
}

/// Starts to open a file for a request, where it is known whether there is a directory
/// under the path.
pub fn open_file(
    settings: &OpenFileSettings,
    path_to_file: FilePath,
    uri: &RequestUri,
    is_dir: bool,
) -> (step: OpenStep)
    requires
        is_dir && !serve::has_trailing_slash(uri@.path) ==> uri@.wf(),
        redirects(uri@, is_dir) ==> header_map::is_printable(uri@.text()),
    ensures
        if is_dir && !serve::has_trailing_slash(uri@.path) {
            step matches OpenStep::Done { output } && is_redirect(uri@, output)
        } else {
            &&& step matches OpenStep::Open { attempt }
            &&& is_attempt(
                attempt,
                serve::file_to_serve(uri@.path, path_to_file@, is_dir)->0,
                settings.negotiated_encodings@,
            )
        },
{
    let mut path = path_to_file;
    if let Some(output) = maybe_redirect_or_append_path(&mut path, uri, is_dir, true) {
        return OpenStep::Done { output };
    }
    let remaining = copy_choices(&settings.negotiated_encodings);
    OpenStep::Open { attempt: next_attempt(path, remaining) }
}

fn copy_choices(choices: &Vec<(Encoding, QValue)>) -> (r: Vec<(Encoding, QValue)>)
    ensures
        r@ == choices@,
{
    let mut r: Vec<(Encoding, QValue)> = Vec::new();
    let mut at: usize = 0;
    while at < choices.len()
        invariant
            at <= choices.len(),
            r@ == choices@.take(at as int),
        decreases choices.len() - at,
    {
        r.push(choices[at]);
        assert(choices@.take(at + 1) =~= choices@.take(at as int).push(choices@[at as int]));
        at = at + 1;
    }
    assert(choices@.take(at as int) =~= choices@);
    r
}

/// The ranges that the settings ask for in a file of this size.
pub open spec fn asked_ranges(settings: OpenFileSettings, size: u64) -> Option<
    Option<Seq<ByteRange>>,
> {
    match settings.range_header {
        Some(text) => Some(ranges::ranges_of(text@, size)),
        None => None,
    }
}

/// Whether this is the file to send, with all that is known of it.
pub open spec fn is_opened(
    opened: FileOpened,
    settings: OpenFileSettings,
    head: bool,
    path: Seq<Seq<char>>,
    meta: FileMeta,
    encoding: Option<Encoding>,
) -> bool {
    &&& opened.extent == if head {
        FileRequestExtent::Head(meta)
    } else {
        FileRequestExtent::Full(meta)
    }
    &&& opened.chunk_size == settings.buf_chunk_size
    &&& header_map::value_bytes(opened.mime_header_value) == vstd::utf8::encode_utf8(
        media_type::mime_of(serve::file_name(path)),
    )
    &&& opened.maybe_encoding == encoding
    &&& ranges::ranges_view(opened.maybe_range) == asked_ranges(settings, meta.len)
    &&& opened.last_modified == meta.modified
}

/// Where to go in a file before it is sent: to the start of the range, if exactly one is
/// asked for and the file was opened. Several ranges are refused later on.
pub open spec fn start_of_range(ranges: Option<Option<Seq<ByteRange>>>, head: bool) -> Option<u64> {
    match ranges {
        Some(Some(ranges)) => if !head && ranges.len() == 1 {
            Some(ranges[0].start)
        } else {
            None
        },
        _ => None,
    }
}

/// What follows once a file was opened, or its metadata was read.
pub open spec fn is_after_opening(
    step: OpenStep,
    settings: OpenFileSettings,
    head: bool,
    path: Seq<Seq<char>>,
    meta: FileMeta,
    encoding: Option<Encoding>,
) -> bool {
    match condition_output(
        headers::condition_failing(
            headers::modified_seconds(meta.modified),
            headers::if_unmodified_seconds(settings.if_unmodified_since),
            headers::if_modified_seconds(settings.if_modified_since),
        ),
    ) {
        Some(output) => step == (OpenStep::Done { output }),
        None => match start_of_range(asked_ranges(settings, meta.len), head) {
            Some(at) => {
                &&& step matches OpenStep::Seek { start, opened }
                &&& start == at
                &&& is_opened(opened, settings, head, path, meta, encoding)
            },
            None => {
                &&& step matches OpenStep::Done { output: OpenFileOutput::FileOpened(opened) }
                &&& is_opened(*opened, settings, head, path, meta, encoding)
            },
        },
    }
}

fn file_opened(
    settings: &OpenFileSettings,
    head: bool,
    path: &FilePath,
    meta: FileMeta,
    encoding: Option<Encoding>,
) -> (step: OpenStep)
    ensures
        is_after_opening(step, *settings, head, path@, meta, encoding),
{
    if let Some(output) = check_modified_headers(
        meta.modified,
        settings.if_unmodified_since,
        settings.if_modified_since,
    ) {
        return OpenStep::Done { output };
    }
    let mime = if path.segments.len() > 0 {
        mime_for(path.segments[path.segments.len() - 1].as_str())
    } else {
        mime_for("")
    };
    proof {
        reveal_strlit("");
        assert(""@ =~= Seq::<char>::empty());
    }
    let range_header = match &settings.range_header {
        Some(text) => Some(text.as_str()),
        None => None,
    };
    let maybe_range = try_parse_range(range_header, meta.len);
    let start = match &maybe_range {
        Some(Ok(ranges)) => if !head && ranges.len() == 1 {
            Some(ranges[0].start)
        } else {
            None
        },
        _ => None,
    };
    let extent = if head {
        FileRequestExtent::Head(meta)
    } else {
        FileRequestExtent::Full(meta)
    };
    let opened = FileOpened {
        extent,
        chunk_size: settings.buf_chunk_size,
        mime_header_value: visible_value(mime.as_str()),
        maybe_encoding: encoding,
        maybe_range,
        last_modified: meta.modified,
    };
    match start {
        Some(start) => OpenStep::Seek { start, opened },
        None => OpenStep::Done { output: OpenFileOutput::FileOpened(Box::new(opened)) },
    }
}

/// Goes on once an attempt to open a file was made. Where there is no file in the encoding
/// that was tried, the next one is tried without it; any other error ends the request.
pub fn open_attempted(
    settings: &OpenFileSettings,
    method: &str,
    attempt: OpenAttempt,
    result: Result<FileMeta, FileError>,
) -> (step: OpenStep)
    ensures
        match result {
            Ok(meta) => is_after_opening(
                step,
                *settings,
                request::is_metadata_method(method@),
                attempt.path@,
                meta,
                attempt.encoding,
            ),
            Err(error) => if error.kind == FileErrorKind::NotFound && attempt.encoding is Some {
                &&& step matches OpenStep::Open { attempt: next }
                &&& is_attempt(
                    next,
                    attempt.path@,
                    others(attempt.remaining@, attempt.encoding->0),
                )
            } else {
                step == (OpenStep::Failed { error })
            },
        },
{
    match result {
        Ok(meta) => file_opened(
            settings,
            reads_metadata_only(method),
            &attempt.path,
            meta,
            attempt.encoding,
        ),
        Err(error) => {
            if error.kind == FileErrorKind::NotFound {
                if let Some(encoding) = attempt.encoding {
                    let remaining = without(&attempt.remaining, encoding);
                    return OpenStep::Open { attempt: next_attempt(attempt.path, remaining) };
                }
            }
            OpenStep::Failed { error }
        },
    }
}

/// Ends once the file was brought to the start of the range, or could not be.
pub fn open_sought(opened: FileOpened, result: Result<(), FileError>) -> (step: OpenStep)
    ensures
        match result {
            Ok(_) => step == (OpenStep::Done {
                output: OpenFileOutput::FileOpened(Box::new(opened)),
            }),
            Err(error) => step == (OpenStep::Failed { error }),
        },
{
    match result {
        Ok(_) => OpenStep::Done { output: OpenFileOutput::FileOpened(Box::new(opened)) },
        Err(error) => OpenStep::Failed { error },
    }
}

proof fn lemma_others(choices: Seq<(Encoding, QValue)>, encoding: Encoding)
    ensures
        forall|choice: (Encoding, QValue)| #[trigger]
            others(choices, encoding).contains(choice) <==> choices.contains(choice) && choice.0
                != encoding,
        others(choices, encoding).len() <= choices.len(),
        (exists|i: int| 0 <= i < choices.len() && #[trigger] choices[i].0 == encoding) ==> others(
            choices,
            encoding,
        ).len() < choices.len(),
    decreases choices.len(),
{
    if choices.len() > 0 {
        let front = choices.drop_last();
        let last = choices.last();
        let kept = others(front, encoding);
        lemma_others(front, encoding);
        assert forall|choice: (Encoding, QValue)| #[trigger]
            others(choices, encoding).contains(choice) <==> choices.contains(choice) && choice.0
                != encoding by {
            assert(choices == front.push(last));
            if choices.contains(choice) {
                let i = choose|i: int| 0 <= i < choices.len() && choices[i] == choice;
                if i < front.len() {
                    assert(front[i] == choice);
                    assert(front.contains(choice));
                }
            }
            if front.contains(choice) {
                let i = choose|i: int| 0 <= i < front.len() && front[i] == choice;
                assert(choices[i] == choice);
            }
            assert(choices[choices.len() - 1] == last);
            if kept.contains(choice) && last.0 != encoding {
                let i = choose|i: int| 0 <= i < kept.len() && kept[i] == choice;
                assert(kept.push(last)[i] == choice);
            }
            if last.0 != encoding {
                assert(kept.push(last)[kept.len() as int] == last);
                if kept.push(last).contains(choice) && choice != last {
                    let i = choose|i: int|
                        0 <= i < kept.push(last).len() && kept.push(last)[i] == choice;
                    assert(kept[i] == choice);
                }
            }
        }
        if exists|i: int| 0 <= i < choices.len() && #[trigger] choices[i].0 == encoding {
            let i = choose|i: int| 0 <= i < choices.len() && #[trigger] choices[i].0 == encoding;
            if i < front.len() {
                assert(front[i].0 == encoding);
            }
        }
    } else {
        assert(others(choices, encoding) =~= choices);
    }
}

/// How the search for a file ends, given what opening each path gives.
pub open spec fn open_search(
    open: spec_fn(Seq<Seq<char>>) -> Result<FileMeta, FileError>,
    path: Seq<Seq<char>>,
    remaining: Seq<(Encoding, QValue)>,
) -> (Option<Encoding>, Result<FileMeta, FileError>)
    decreases remaining.len(),
{
    let encoding = content_encoding::best_encoding(remaining);
    let result = open(file::variant(path, encoding));
    if encoding is Some && file::is_absent(result) && others(remaining, encoding->0).len()
        < remaining.len() {
        open_search(open, path, others(remaining, encoding->0))
    } else {
        (encoding, result)
    }
}

/// Whether an encoding is acceptable and there is a file in it, or at least an error other
/// than that there is none.
pub open spec fn is_present(
    open: spec_fn(Seq<Seq<char>>) -> Result<FileMeta, FileError>,
    path: Seq<Seq<char>>,
    choice: (Encoding, QValue),
) -> bool {
    choice.1.0 > 0 && !file::is_absent(open(file::variant(path, Some(choice.0))))
}

/// The search ends with the file in the most preferred encoding for which there is one:
/// no choice that is present is preferred over the one that it ends with. Where none is
/// present it ends with the file as it is.
pub proof fn law_open_prefers(
    open: spec_fn(Seq<Seq<char>>) -> Result<FileMeta, FileError>,
    path: Seq<Seq<char>>,
    choices: Seq<(Encoding, QValue)>,
)
    ensures
        match open_search(open, path, choices).0 {
            Some(encoding) => exists|best: (Encoding, QValue)| #[trigger]
                choices.contains(best) && best.0 == encoding && is_present(open, path, best)
                    && forall|choice: (Encoding, QValue)| #[trigger]
                    choices.contains(choice) && is_present(open, path, choice)
                        ==> !content_encoding::outranks(choice, best),
            None => forall|choice: (Encoding, QValue)| #[trigger]
                choices.contains(choice) ==> !is_present(open, path, choice),
        },
        open_search(open, path, choices).1 == open(
            file::variant(path, open_search(open, path, choices).0),
        ),
    decreases choices.len(),
{
    content_encoding::law_best_choice(choices);
    match content_encoding::best_choice(choices) {
        Some(best) => {
            let at = choose|at: int| 0 <= at < choices.len() && choices[at] == best;
            assert(choices[at].0 == best.0);
            lemma_others(choices, best.0);
            let rest = others(choices, best.0);
            if file::is_absent(open(file::variant(path, Some(best.0)))) {
                law_open_prefers(open, path, rest);
                assert forall|choice: (Encoding, QValue)| #[trigger]
                    choices.contains(choice) && is_present(open, path, choice) implies rest.contains(
                    choice,
                ) by {
                }
                match open_search(open, path, rest).0 {
                    Some(encoding) => {
                        let found = choose|found: (Encoding, QValue)| #[trigger]
                            rest.contains(found) && found.0 == encoding && is_present(
                                open,
                                path,
                                found,
                            ) && forall|choice: (Encoding, QValue)| #[trigger]
                                rest.contains(choice) && is_present(open, path, choice)
                                    ==> !content_encoding::outranks(choice, found);
                        assert(choices.contains(found));
                    },
                    None => {},
                }
            } else {
                assert(choices.contains(best));
                assert forall|choice: (Encoding, QValue)| #[trigger]
                    choices.contains(choice) implies !content_encoding::outranks(choice, best) by {
                    let i = choose|i: int| 0 <= i < choices.len() && choices[i] == choice;
                    assert(!content_encoding::outranks(choices[i], best));
                }
            }
        },
        None => {
            assert forall|choice: (Encoding, QValue)| #[trigger]
                choices.contains(choice) implies !is_present(open, path, choice) by {
                let i = choose|i: int| 0 <= i < choices.len() && choices[i] == choice;
                assert(choices[i].1.0 == 0);
            }
        },
    }
}

/// A condition that fails ends the request: where the file may have been modified since the
/// one time, as a failed precondition, and where it was not modified since the other, as not
/// modified.
pub proof fn law_failed_conditions_end_the_request(
    modified: Option<u64>,
    if_unmodified_since: Option<u64>,
    if_modified_since: Option<u64>,
)
    ensures
        ({
            let output = condition_output(
                headers::condition_failing(modified, if_unmodified_since, if_modified_since),
            );
            let too_new = if_unmodified_since is Some && (modified is None || modified->0
                > if_unmodified_since->0);
            let known = if_modified_since is Some && modified is Some && modified->0
                <= if_modified_since->0;
            &&& too_new ==> output == Some(OpenFileOutput::PreconditionFailed)
            &&& !too_new && known ==> output == Some(OpenFileOutput::NotModified)
            &&& !too_new && !known ==> output is None
        }),
{
}

/// A request for a directory by its name is redirected to the same URI with a slash behind
/// the path, before the query. A URI that has only one of scheme and authority is refused.
pub proof fn law_redirects_append_a_slash(uri: UriParts, output: OpenFileOutput)
    requires
        is_redirect(uri, output),
    ensures
        uri.scheme is Some != uri.authority is Some ==> output
            == OpenFileOutput::InvalidRedirectUri,
        uri.scheme is Some == uri.authority is Some ==> {
            let start = (UriParts { query: None, ..uri }).text();
            &&& output matches OpenFileOutput::Redirect { location }
            &&& header_map::value_bytes(location) == vstd::utf8::encode_utf8(
                match uri.query {
                    Some(query) => start + "/?"@ + query,
                    None => start + "/"@,
                },
            )
        },
{
    reveal_strlit("/");
    reveal_strlit("/?");
    assert("/"@ =~= seq!['/']);
    assert("/?"@ =~= seq!['/', '?']);
    let start = (UriParts { query: None, ..uri }).text();
    let slashed = (UriParts { path: uri.path + seq!['/'], ..uri }).text();
    match uri.query {
        Some(query) => {
            assert(slashed =~= start + seq!['/', '?'] + query);
        },
        None => {
            assert(slashed =~= start + seq!['/']);
        },
    }
}

/// A file is told together with all that is known of it: its extent, the size of the chunks,
/// its media type, its encoding, the ranges that were asked for, and when it was modified.
pub proof fn law_opened_files_are_told(
    opened: FileOpened,
    settings: OpenFileSettings,
    head: bool,
    directory: Seq<Seq<char>>,
    name: Seq<char>,
    meta: FileMeta,
    encoding: Option<Encoding>,
)
    requires
        is_opened(opened, settings, head, directory.push(name), meta, encoding),
    ensures
        head ==> opened.extent == FileRequestExtent::Head(meta),
        !head ==> opened.extent == FileRequestExtent::Full(meta),
        opened.chunk_size == settings.buf_chunk_size,
        header_map::value_bytes(opened.mime_header_value) == vstd::utf8::encode_utf8(
            media_type::mime_of(name),
        ),
        opened.maybe_encoding == encoding,
        opened.last_modified == meta.modified,
        settings.range_header is None ==> opened.maybe_range is None,
        settings.range_header matches Some(text) ==> match opened.maybe_range {
            Some(Ok(found)) => ranges::ranges_of(text@, meta.len) == Some(found@),
            Some(Err(_)) => ranges::ranges_of(text@, meta.len) is None,
            None => false,
        },
{
    assert(directory.push(name).last() == name);
}

/// A file is brought to the start of a range exactly where it was opened and exactly one
/// range is asked for.
pub proof fn law_one_range_is_sought(found: Seq<ByteRange>)
    ensures
        start_of_range(None, false) is None,
        start_of_range(Some(None), false) is None,
        found.len() == 1 ==> start_of_range(Some(Some(found)), false) == Some(found[0].start),
        found.len() != 1 ==> start_of_range(Some(Some(found)), false) is None,
        start_of_range(Some(Some(found)), true) is None,
{
}

/// An encoding that was tried in vain is not tried again; all others stay, in their order.
pub proof fn law_tried_encodings_are_left_out(
    choices: Seq<(Encoding, QValue)>,
    choice: (Encoding, QValue),
    tried: Encoding,
)
    ensures
        others(Seq::empty(), tried) == Seq::<(Encoding, QValue)>::empty(),
        choice.0 == tried ==> others(choices.push(choice), tried) == others(choices, tried),
        choice.0 != tried ==> others(choices.push(choice), tried) == others(choices, tried).push(
            choice,
        ),
{
    assert(choices.push(choice).drop_last() =~= choices);
}

/// An attempt is made at the file in the encoding that is preferred among those that are
/// left: an acceptable one, over which no other is preferred. The name of the file tells the
/// encoding. Where none is acceptable, the attempt is made at the file as it is.
pub proof fn law_attempts_prefer(
    attempt: OpenAttempt,
    directory: Seq<Seq<char>>,
    name: Seq<char>,
    remaining: Seq<(Encoding, QValue)>,
)
    requires
        is_attempt(attempt, directory.push(name), remaining),
    ensures
        attempt.path@ == directory.push(name),
        attempt.remaining@ == remaining,
        attempt.candidate@ == (match attempt.encoding {
            Some(Encoding::Gzip) => directory.push(name + ".gz"@),
            Some(Encoding::Brotli) => directory.push(name + ".br"@),
            _ => directory.push(name),
        }),
        match attempt.encoding {
            Some(encoding) => exists|i: int|
                0 <= i < remaining.len() && (#[trigger] remaining[i]).0 == encoding
                    && remaining[i].1.0 > 0 && forall|j: int|
                    0 <= j < remaining.len() ==> (#[trigger] remaining[j]).1.0 <= remaining[i].1.0,
            None => forall|i: int|
                0 <= i < remaining.len() ==> (#[trigger] remaining[i]).1.0 == 0,
        },
{
    file::law_variants_lie_beside_the_file(directory, name);
    content_encoding::law_best_choice(remaining);
    match content_encoding::best_choice(remaining) {
        Some(best) => {
            let i = choose|i: int| 0 <= i < remaining.len() && remaining[i] == best;
            assert forall|j: int| 0 <= j < remaining.len() implies (#[trigger] remaining[j]).1.0
                <= remaining[i].1.0 by {
                assert(!content_encoding::outranks(remaining[j], best));
            }
            assert(remaining[i].0 == best.0);
        },
        None => {},
    }
}

/// Among encodings with the same quality brotli is preferred over gzip, and both over the
/// file as it is.
pub proof fn law_equal_qualities(
    attempt: OpenAttempt,
    path: Seq<Seq<char>>,
    remaining: Seq<(Encoding, QValue)>,
    q: u16,
)
    requires
        is_attempt(attempt, path, remaining),
        q > 0,
        forall|i: int| 0 <= i < remaining.len() ==> (#[trigger] remaining[i]).1.0 == q,
    ensures
        (exists|i: int| 0 <= i < remaining.len() && (#[trigger] remaining[i]).0 == Encoding::Brotli)
            ==> attempt.encoding == Some(Encoding::Brotli),
        (forall|i: int| 0 <= i < remaining.len() ==> (#[trigger] remaining[i]).0 != Encoding::Brotli)
            && (exists|i: int| 0 <= i < remaining.len() && (#[trigger] remaining[i]).0
            == Encoding::Gzip) ==> attempt.encoding == Some(Encoding::Gzip),
{
    content_encoding::law_best_choice(remaining);
    match content_encoding::best_choice(remaining) {
        Some(best) => {
            let at = choose|at: int| 0 <= at < remaining.len() && remaining[at] == best;
            assert(remaining[at].1.0 == q);
            assert forall|j: int| 0 <= j < remaining.len() implies (#[trigger] remaining[j]).0.rank()
                <= best.0.rank() by {
                assert(!content_encoding::outranks(remaining[j], best));
            }
        },
        None => {},
    }
}

/// What follows once a file was found: a failed condition ends the request; otherwise the
/// file is brought to the start of the range where exactly one is asked for and it was
/// opened, and in any case it is told.
pub proof fn law_after_opening(
    step: OpenStep,
    settings: OpenFileSettings,
    head: bool,
    path: Seq<Seq<char>>,
    meta: FileMeta,
    encoding: Option<Encoding>,
)
    requires
        is_after_opening(step, settings, head, path, meta, encoding),
    ensures
        ({
            let modified = headers::modified_seconds(meta.modified);
            let unmodified_since = headers::if_unmodified_seconds(settings.if_unmodified_since);
            let modified_since = headers::if_modified_seconds(settings.if_modified_since);
            let too_new = unmodified_since is Some && (modified is None || modified->0
                > unmodified_since->0);
            let known = modified_since is Some && modified is Some && modified->0
                <= modified_since->0;
            &&& too_new ==> step == (OpenStep::Done { output: OpenFileOutput::PreconditionFailed })
            &&& !too_new && known ==> step == (OpenStep::Done {
                output: OpenFileOutput::NotModified,
            })
            &&& !too_new && !known ==> match step {
                OpenStep::Seek { start, opened } => {
                    &&& !head
                    &&& settings.range_header matches Some(text)
                    &&& ranges::ranges_of(text@, meta.len) matches Some(found)
                    &&& found.len() == 1
                    &&& start == found[0].start
                    &&& is_opened(opened, settings, head, path, meta, encoding)
                },
                OpenStep::Done { output: OpenFileOutput::FileOpened(opened) } => {
                    &&& is_opened(*opened, settings, head, path, meta, encoding)
                    &&& !head && settings.range_header is Some ==> (ranges::ranges_of(
                        settings.range_header->0@,
                        meta.len,
                    ) matches Some(found) ==> found.len() != 1)
                },
                _ => false,
            }
        }),
{
}

} // verus!

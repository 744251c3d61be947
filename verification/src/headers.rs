//! Dates in headers and the conditions that requests put on them.
use crate::header_map;
use crate::text::text_from_utf8;
use http::header::HeaderValue;
use std::time::{Duration, UNIX_EPOCH};
use vstd::prelude::*;

verus! {

/// The seconds from the Unix epoch to the end of the year 9999, where HTTP dates end.
pub const HTTP_DATE_END: u64 = 253402300800;

/// The seconds since the Unix epoch that `httpdate::parse_http_date` reads in a text.
pub uninterp spec fn http_date_seconds(text: Seq<char>) -> Option<u64>;

/// The text in which `httpdate::HttpDate` shows a time, given in seconds since the Unix
/// epoch.
pub uninterp spec fn http_date(seconds: u64) -> Seq<char>;

/// Calls `httpdate::parse_http_date`, and gives the time that it reads in whole seconds
/// since the Unix epoch. No date past the year 9999 is read.
#[verifier::external_body]
fn parse_http_date(text: &str) -> (r: Option<u64>)
    ensures
        r == http_date_seconds(text@),
        r matches Some(seconds) ==> seconds < HTTP_DATE_END,
{
    let time = httpdate::parse_http_date(text).ok()?;
    Some(time.duration_since(UNIX_EPOCH).ok()?.as_secs())
}

/// Calls `httpdate::HttpDate::from` and shows the date as text: visible ASCII, which
/// `httpdate::parse_http_date` reads back as the same time.
#[verifier::external_body]
fn format_http_date(seconds: u64) -> (text: String)
    requires
        seconds < HTTP_DATE_END,
    ensures
        text@ == http_date(seconds),
        http_date_seconds(text@) == Some(seconds),
        forall|i: int| 0 <= i < text@.len() ==> ' ' <= #[trigger] text@[i] <= '~',
{
    httpdate::HttpDate::from(UNIX_EPOCH + Duration::from_secs(seconds)).to_string()
}

/// The date that a header value names, in seconds since the Unix epoch.
pub open spec fn date_in(bytes: Seq<u8>) -> Option<u64> {
    if vstd::utf8::valid_utf8(bytes) {
        http_date_seconds(vstd::utf8::decode_utf8(bytes))
    } else {
        None
    }
}

/// The value of a `Last-Modified` header for a time.
pub open spec fn date_bytes(seconds: u64) -> Seq<u8> {
    vstd::utf8::encode_utf8(http_date(seconds))
}

/// Whether the date that is sent for a time names this time.
pub open spec fn reads_back(seconds: u64) -> bool {
    date_in(date_bytes(seconds)) == Some(seconds)
}

/// The time at which a file was last modified, in whole seconds since the Unix epoch.
#[derive(Copy, Clone, Debug, PartialEq, Eq, Structural)]
pub struct LastModified {
    seconds: u64,
}

impl LastModified {
    /// The seconds since the Unix epoch.
    pub closed spec fn seconds(self) -> u64 {
        self.seconds
    }

    #[verifier::type_invariant]
    spec fn valid(self) -> bool {
        self.seconds < HTTP_DATE_END
    }

    /// The time that lies this many seconds after the Unix epoch.
    pub fn from_unix_seconds(seconds: u64) -> (time: LastModified)
        requires
            seconds < HTTP_DATE_END,
        ensures
            time.seconds() == seconds,
    {
        LastModified { seconds }
    }

    /// The time as the text of a `Last-Modified` header.
    pub fn to_text(&self) -> (text: String)
        ensures
            text@ == http_date(self.seconds()),
            reads_back(self.seconds()),
            forall|i: int| 0 <= i < text@.len() ==> ' ' <= #[trigger] text@[i] <= '~',
    {
        proof {
            use_type_invariant(self);
        }
        let text = format_http_date(self.seconds);
        proof {
            vstd::utf8::encode_utf8_valid_utf8(text@);
            vstd::utf8::encode_utf8_decode_utf8(text@);
        }
        text
    }
}

fn parse_date(value: &HeaderValue) -> (seconds: Option<u64>)
    ensures
        seconds == date_in(header_map::value_bytes(*value)),
{
    match text_from_utf8(value.as_bytes()) {
        Some(text) => parse_http_date(text),
        None => None,
    }
}

/// The time of an `If-Modified-Since` header.
#[derive(Copy, Clone, Debug, PartialEq, Eq, Structural)]
pub struct IfModifiedSince {
    seconds: u64,
}

impl IfModifiedSince {
    /// The seconds since the Unix epoch.
    pub closed spec fn seconds(self) -> u64 {
        self.seconds
    }

    /// Whether something that was last modified at this time has been modified since.
    pub fn is_modified(&self, last_modified: &LastModified) -> (modified: bool)
        ensures
            modified == (self.seconds() < last_modified.seconds()),
    {
        self.seconds < last_modified.seconds
    }

    /// Reads a header value. One that is not a date is ignored.
    pub fn from_header_value(value: &HeaderValue) -> (since: Option<IfModifiedSince>)
        ensures
            match since {
                Some(since) => date_in(header_map::value_bytes(*value)) == Some(since.seconds()),
                None => date_in(header_map::value_bytes(*value)) is None,
            },
    {
        match parse_date(value) {
            Some(seconds) => Some(IfModifiedSince { seconds }),
            None => None,
        }
    }
}

/// The time of an `If-Unmodified-Since` header.
#[derive(Copy, Clone, Debug, PartialEq, Eq, Structural)]
pub struct IfUnmodifiedSince {
    seconds: u64,
}

impl IfUnmodifiedSince {
    /// The seconds since the Unix epoch.
    pub closed spec fn seconds(self) -> u64 {
        self.seconds
    }

    /// Whether something that was last modified at this time meets the condition.
    pub fn precondition_passes(&self, last_modified: &LastModified) -> (passes: bool)
        ensures
            passes == (self.seconds() >= last_modified.seconds()),
    {
        self.seconds >= last_modified.seconds
    }

    /// Reads a header value. One that is not a date is ignored.
    pub fn from_header_value(value: &HeaderValue) -> (since: Option<IfUnmodifiedSince>)
        ensures
            match since {
                Some(since) => date_in(header_map::value_bytes(*value)) == Some(since.seconds()),
                None => date_in(header_map::value_bytes(*value)) is None,
            },
    {
        match parse_date(value) {
            Some(seconds) => Some(IfUnmodifiedSince { seconds }),
            None => None,
        }
    }
}

/// Why a conditional request is not answered with the file.
#[derive(Copy, Clone, Debug, PartialEq, Eq, Structural)]
pub enum FailedCondition {
    /// The file may have been modified since the time that the request names.
    PreconditionFailed,
    /// The file has not been modified since the time that the request names.
    NotModified,
}

/// Which condition of a request fails for a file, over times in seconds.
///
/// A file of unknown age meets no `If-Unmodified-Since` condition and counts as
/// modified.
pub open spec fn condition_failing(
    modified: Option<u64>,
    if_unmodified_since: Option<u64>,
    if_modified_since: Option<u64>,
) -> Option<FailedCondition> {
    if if_unmodified_since matches Some(since) && !(modified matches Some(time) && time <= since) {
        Some(FailedCondition::PreconditionFailed)
    } else if if_modified_since matches Some(since) && modified matches Some(time) && time
        <= since {
        Some(FailedCondition::NotModified)
    } else {
        None
    }
}

/// The seconds of an optional time.
pub open spec fn modified_seconds(time: Option<LastModified>) -> Option<u64> {
    match time {
        Some(time) => Some(time.seconds()),
        None => None,
    }
}

/// The seconds of an optional condition.
pub open spec fn if_modified_seconds(since: Option<IfModifiedSince>) -> Option<u64> {
    match since {
        Some(since) => Some(since.seconds()),
        None => None,
    }
}

/// The seconds of an optional condition.
pub open spec fn if_unmodified_seconds(since: Option<IfUnmodifiedSince>) -> Option<u64> {
    match since {
        Some(since) => Some(since.seconds()),
        None => None,
    }
}

/// Checks the conditions of a request against the time at which a file was modified.
pub fn failed_condition(
    modified: Option<LastModified>,
    if_unmodified_since: Option<IfUnmodifiedSince>,
    if_modified_since: Option<IfModifiedSince>,
) -> (failed: Option<FailedCondition>)
    ensures
        failed == condition_failing(
            modified_seconds(modified),
            if_unmodified_seconds(if_unmodified_since),
            if_modified_seconds(if_modified_since),
        ),
{
    if let Some(since) = if_unmodified_since {
        let precondition = match modified {
            Some(time) => since.precondition_passes(&time),
            None => false,
        };
        if !precondition {
            return Some(FailedCondition::PreconditionFailed);
        }
    }
    if let Some(since) = if_modified_since {
        let unmodified = match modified {
            Some(time) => !since.is_modified(&time),
            None => false,
        };
        if unmodified {
            return Some(FailedCondition::NotModified);
        }
    }
    None
}

/// A file that was modified at one time meets the condition that it was not modified since
/// another exactly if it is known to have been modified then or earlier. It counts as not
/// modified since a time exactly if it was modified then or earlier. The first condition
/// comes first.
pub proof fn law_conditions_compare_times(
    modified: Option<u64>,
    if_unmodified_since: Option<u64>,
    if_modified_since: Option<u64>,
)
    ensures
        condition_failing(modified, if_unmodified_since, if_modified_since) == Some(
            FailedCondition::PreconditionFailed,
        ) <==> if_unmodified_since is Some && (modified is None || modified->0
            > if_unmodified_since->0),
        condition_failing(modified, if_unmodified_since, if_modified_since) == Some(
            FailedCondition::NotModified,
        ) <==> (if_unmodified_since is None || modified is Some && modified->0
            <= if_unmodified_since->0) && modified is Some && if_modified_since is Some
            && modified->0 <= if_modified_since->0,
{
}

/// What meets a condition with one date meets it with every later date: a file that was not
/// modified since a time was not modified since a later one.
pub proof fn law_conditions_hold_for_later_dates(modified: Option<u64>, since: u64, later: u64)
    requires
        since <= later,
    ensures
        condition_failing(modified, Some(since), None) is None ==> condition_failing(
            modified,
            Some(later),
            None,
        ) is None,
        condition_failing(modified, None, Some(since)) == Some(FailedCondition::NotModified)
            ==> condition_failing(modified, None, Some(later)) == Some(
            FailedCondition::NotModified,
        ),
{
}

/// A client that sends back a date under which a file was served, or will be, is told that
/// the file was not modified exactly if it was not modified after that date. Then, and only
/// then, the file passes the condition that it was not modified.
pub proof fn law_dates_are_validators(served: u64, now: u64)
    requires
        reads_back(served),
    ensures
        condition_failing(Some(now), None, date_in(date_bytes(served))) == (if now <= served {
            Some(FailedCondition::NotModified)
        } else {
            None
        }),
        condition_failing(Some(now), date_in(date_bytes(served)), None) == (if now <= served {
            None
        } else {
            Some(FailedCondition::PreconditionFailed)
        }),
{
}

/// The date in a header value is the one that the date parser reads in its text; bytes that
/// are no text name no date.
pub proof fn law_dates_are_read_from_text(text: Seq<char>, bytes: Seq<u8>)
    ensures
        date_in(vstd::utf8::encode_utf8(text)) == http_date_seconds(text),
        !vstd::utf8::valid_utf8(bytes) ==> date_in(bytes) is None,
{
    vstd::utf8::encode_utf8_valid_utf8(text);
    vstd::utf8::encode_utf8_decode_utf8(text);
}

} // verus!

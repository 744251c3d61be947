use http::header::HeaderValue;
use sveltum::headers::{
    failed_condition, FailedCondition, IfModifiedSince, IfUnmodifiedSince, LastModified,
};
use sveltum::ranges::{
    resolve_ranges, try_parse_range, validate_range, ByteRange, RangeEnd, RangeStart, RequestedRange,
    UnsatisfiableRange, ValidateRangeError,
};

// Sun, 06 Nov 1994 08:49:37 GMT
const TIME: u64 = 784111777;

fn date() -> HeaderValue {
    HeaderValue::from_static("Sun, 06 Nov 1994 08:49:37 GMT")
}

fn range(start: u64, end: u64) -> ByteRange {
    ByteRange { start, end }
}

#[test]
fn dates_are_written() {
    assert_eq!(LastModified::from_unix_seconds(TIME).to_text(), "Sun, 06 Nov 1994 08:49:37 GMT");
    assert_eq!(LastModified::from_unix_seconds(0).to_text(), "Thu, 01 Jan 1970 00:00:00 GMT");
}

#[test]
fn dates_are_read_back() {
    for seconds in [0, 1, TIME, 1_700_000_000, 253402300799] {
        let time = LastModified::from_unix_seconds(seconds);
        let value = HeaderValue::from_str(&time.to_text()).unwrap();
        let since = IfModifiedSince::from_header_value(&value).unwrap();
        assert!(!since.is_modified(&time));
        if seconds < 253402300799 {
            assert!(since.is_modified(&LastModified::from_unix_seconds(seconds + 1)));
        }
        let since = IfUnmodifiedSince::from_header_value(&value).unwrap();
        assert!(since.precondition_passes(&time));
        if seconds < 253402300799 {
            assert!(!since.precondition_passes(&LastModified::from_unix_seconds(seconds + 1)));
        }
    }
}

#[test]
fn malformed_dates_are_ignored() {
    let value = HeaderValue::from_static("yesterday");
    assert!(IfModifiedSince::from_header_value(&value).is_none());
    assert!(IfUnmodifiedSince::from_header_value(&value).is_none());
    let value = HeaderValue::from_bytes(b"\xff\xfe").unwrap();
    assert!(IfModifiedSince::from_header_value(&value).is_none());
    assert!(IfUnmodifiedSince::from_header_value(&value).is_none());
}

#[test]
fn a_modified_file_fails_the_precondition() {
    let since = IfUnmodifiedSince::from_header_value(&date());
    let newer = Some(LastModified::from_unix_seconds(TIME + 1));
    let same = Some(LastModified::from_unix_seconds(TIME));
    assert_eq!(failed_condition(newer, since, None), Some(FailedCondition::PreconditionFailed));
    assert_eq!(failed_condition(same, since, None), None);
    assert_eq!(failed_condition(None, since, None), Some(FailedCondition::PreconditionFailed));
}

#[test]
fn an_unmodified_file_is_not_sent() {
    let since = IfModifiedSince::from_header_value(&date());
    let newer = Some(LastModified::from_unix_seconds(TIME + 1));
    let same = Some(LastModified::from_unix_seconds(TIME));
    assert_eq!(failed_condition(same, None, since), Some(FailedCondition::NotModified));
    assert_eq!(failed_condition(newer, None, since), None);
    assert_eq!(failed_condition(None, None, since), None);
}

#[test]
fn the_precondition_comes_first() {
    let unmodified = IfUnmodifiedSince::from_header_value(&date());
    let modified = IfModifiedSince::from_header_value(&date());
    let same = Some(LastModified::from_unix_seconds(TIME));
    assert_eq!(failed_condition(same, unmodified, modified), Some(FailedCondition::NotModified));
    assert_eq!(
        failed_condition(None, unmodified, modified),
        Some(FailedCondition::PreconditionFailed)
    );
    assert_eq!(failed_condition(same, None, None), None);
}

#[test]
fn range_headers_are_read() {
    assert_eq!(try_parse_range(None, 100), None);
    assert_eq!(try_parse_range(Some("bytes=0-9"), 100), Some(Ok(vec![range(0, 9)])));
    assert_eq!(try_parse_range(Some("bytes=90-"), 100), Some(Ok(vec![range(90, 99)])));
    assert_eq!(try_parse_range(Some("bytes=-10"), 100), Some(Ok(vec![range(90, 99)])));
    assert_eq!(try_parse_range(Some("bytes=90-200"), 100), Some(Ok(vec![range(90, 99)])));
    assert_eq!(
        try_parse_range(Some("bytes=0-9, 20-29"), 100),
        Some(Ok(vec![range(0, 9), range(20, 29)]))
    );
}

#[test]
fn unsatisfiable_ranges_are_refused() {
    assert_eq!(try_parse_range(Some("bytes=100-"), 100), Some(Err(UnsatisfiableRange)));
    assert_eq!(try_parse_range(Some("bytes=9-0"), 100), Some(Err(UnsatisfiableRange)));
    assert_eq!(try_parse_range(Some("lines=0-9"), 100), Some(Err(UnsatisfiableRange)));
    assert_eq!(try_parse_range(Some(""), 100), Some(Err(UnsatisfiableRange)));
    assert_eq!(try_parse_range(Some("bytes=0-9, 5-15"), 100), Some(Err(UnsatisfiableRange)));
}

#[test]
fn requested_ranges_are_resolved() {
    let to_end = RequestedRange { start: RangeStart::Index(10), end: RangeEnd::LastByte };
    let suffix = RequestedRange { start: RangeStart::FromLast(5), end: RangeEnd::LastByte };
    assert_eq!(resolve_ranges(&vec![to_end], 20), Ok(vec![range(10, 19)]));
    assert_eq!(resolve_ranges(&vec![suffix], 20), Ok(vec![range(15, 19)]));
    assert_eq!(resolve_ranges(&vec![to_end], 10), Err(UnsatisfiableRange));
}

#[test]
fn one_range_is_served() {
    assert_eq!(validate_range(&None), Ok(None));
    assert_eq!(validate_range(&Some(Ok(vec![range(3, 5)]))), Ok(Some(range(3, 5))));
    assert_eq!(
        validate_range(&Some(Ok(vec![range(3, 5), range(7, 8)]))),
        Err(ValidateRangeError::TooManyRanges)
    );
    assert_eq!(validate_range(&Some(Ok(vec![]))), Err(ValidateRangeError::MissingRange));
    assert_eq!(
        validate_range(&Some(Err(UnsatisfiableRange))),
        Err(ValidateRangeError::InvalidHeader)
    );
}

#[test]
fn range_errors_have_messages() {
    assert_eq!(
        ValidateRangeError::TooManyRanges.message(),
        "cannot serve multipart range requests"
    );
    assert_eq!(
        ValidateRangeError::MissingRange.message(),
        "no ranges found after parsing range header"
    );
    assert_eq!(ValidateRangeError::InvalidHeader.message(), "invalidate range header");
}

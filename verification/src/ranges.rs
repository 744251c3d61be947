//! Byte ranges of a file.
use http_range_header::RangeUnsatisfiableError;
use vstd::prelude::*;

verus! {

/// The error of a range header, held as an opaque value.
#[verifier::external_type_specification]
#[verifier::external_body]
pub struct ExRangeUnsatisfiableError(http_range_header::RangeUnsatisfiableError);

/// Where a requested range starts.
#[derive(Copy, Clone, Debug, PartialEq, Eq, Structural)]
pub enum RangeStart {
    /// At this byte.
    Index(u64),
    /// So many bytes before the end.
    FromLast(u64),
}

/// Where a requested range ends.
#[derive(Copy, Clone, Debug, PartialEq, Eq, Structural)]
pub enum RangeEnd {
    /// With this byte.
    Index(u64),
    /// With the last byte.
    LastByte,
}

/// A range as a header names it, before the size of the file is known.
#[derive(Copy, Clone, Debug, PartialEq, Eq, Structural)]
pub struct RequestedRange {
    pub start: RangeStart,
    pub end: RangeEnd,
}

/// The bytes of a file from one index to another, both included.
#[derive(Copy, Clone, Debug, PartialEq, Eq, Structural)]
pub struct ByteRange {
    pub start: u64,
    pub end: u64,
}

/// A range header that cannot be satisfied.
#[derive(Copy, Clone, Debug, PartialEq, Eq, Structural)]
pub struct UnsatisfiableRange;

/// The ranges that `http_range_header::parse_range_header` reads in a header, if it is
/// well formed.
pub uninterp spec fn ranges_in_header(text: Seq<char>) -> Option<Seq<RequestedRange>>;

/// Calls `http_range_header::parse_range_header`.
#[verifier::external_body]
fn parse_range_header(text: &str) -> (r: Result<Vec<RequestedRange>, RangeUnsatisfiableError>)
    ensures
        match r {
            Ok(ranges) => ranges_in_header(text@) == Some(ranges@),
            Err(_) => ranges_in_header(text@) is None,
        },
{
    let parsed = http_range_header::parse_range_header(text)?;
    Ok(parsed.ranges.iter().map(|range| RequestedRange {
        start: match range.start {
            http_range_header::StartPosition::Index(at) => RangeStart::Index(at),
            http_range_header::StartPosition::FromLast(n) => RangeStart::FromLast(n),
        },
        end: match range.end {
            http_range_header::EndPosition::Index(at) => RangeEnd::Index(at),
            http_range_header::EndPosition::LastByte => RangeEnd::LastByte,
        },
    }).collect())
}

/// The index of the last byte of a file; zero for an empty file.
pub open spec fn last_index(size: u64) -> u64 {
    if size == 0 {
        0
    } else {
        (size - 1) as u64
    }
}

/// Whether a range does not reach back beyond the start of a file of this size.
pub open spec fn starts_inside(range: RequestedRange, size: u64) -> bool {
    range.start matches RangeStart::FromLast(n) ==> n <= size
}

/// The bytes that a range stands for in a file of this size.
pub open spec fn resolved(range: RequestedRange, size: u64) -> ByteRange {
    ByteRange {
        start: match range.start {
            RangeStart::Index(at) => at,
            RangeStart::FromLast(n) => (size - n) as u64,
        },
        end: match range.end {
            RangeEnd::Index(at) => if at < last_index(size) {
                at
            } else {
                last_index(size)
            },
            RangeEnd::LastByte => last_index(size),
        },
    }
}

/// Whether two ranges have a byte in common.
pub open spec fn overlap(a: ByteRange, b: ByteRange) -> bool {
    a.start <= b.end && b.start <= a.end
}

/// Whether ranges can be served together from a file of this size: none reaches back
/// beyond its start, none ends before it starts, and no two overlap.
pub open spec fn satisfiable(ranges: Seq<RequestedRange>, size: u64) -> bool {
    &&& forall|i: int| 0 <= i < ranges.len() ==> starts_inside(#[trigger] ranges[i], size)
    &&& forall|i: int|
        0 <= i < ranges.len() ==> resolved(#[trigger] ranges[i], size).start <= resolved(
            ranges[i],
            size,
        ).end
    &&& forall|i: int, j: int|
        0 <= i < j < ranges.len() ==> !overlap(
            resolved(#[trigger] ranges[i], size),
            resolved(#[trigger] ranges[j], size),
        )
}

/// The bytes that ranges stand for, if they can be served from a file of this size.
pub open spec fn validated(ranges: Seq<RequestedRange>, size: u64) -> Option<Seq<ByteRange>> {
    if satisfiable(ranges, size) {
        Some(ranges.map_values(|range: RequestedRange| resolved(range, size)))
    } else {
        None
    }
}

/// Calls `http_range_header::ParsedRanges::validate`, which resolves each range against
/// the size of the file and refuses them where they cannot be served together.
#[verifier::external_body]
fn validate_ranges(ranges: &Vec<RequestedRange>, size: u64) -> (r: Result<
    Vec<ByteRange>,
    RangeUnsatisfiableError,
>)
    ensures
        match r {
            Ok(bytes) => validated(ranges@, size) == Some(bytes@),
            Err(_) => validated(ranges@, size) is None,
        },
{
    let ranges = ranges.iter().map(|range| http_range_header::SyntacticallyCorrectRange {
        start: match range.start {
            RangeStart::Index(at) => http_range_header::StartPosition::Index(at),
            RangeStart::FromLast(n) => http_range_header::StartPosition::FromLast(n),
        },
        end: match range.end {
            RangeEnd::Index(at) => http_range_header::EndPosition::Index(at),
            RangeEnd::LastByte => http_range_header::EndPosition::LastByte,
        },
    }).collect();
    let valid = http_range_header::ParsedRanges { ranges }.validate(size)?;
    Ok(valid.iter().map(|range| ByteRange { start: *range.start(), end: *range.end() }).collect())
}

/// The bytes that a range header asks for in a file of this size, if it can be
/// satisfied.
pub open spec fn ranges_of(text: Seq<char>, size: u64) -> Option<Seq<ByteRange>> {
    match ranges_in_header(text) {
        Some(ranges) => validated(ranges, size),
        None => None,
    }
}

/// Resolves ranges that a header named against the size of a file.
pub fn resolve_ranges(ranges: &Vec<RequestedRange>, size: u64) -> (r: Result<
    Vec<ByteRange>,
    UnsatisfiableRange,
>)
    ensures
        match r {
            Ok(bytes) => validated(ranges@, size) == Some(bytes@),
            Err(_) => validated(ranges@, size) is None,
        },
{
    match validate_ranges(ranges, size) {
        Ok(bytes) => Ok(bytes),
        Err(_) => Err(UnsatisfiableRange),
    }
}

/// Reads an optional range header for a file of this size.
pub fn try_parse_range(maybe_range_ref: Option<&str>, file_size: u64) -> (r: Option<
    Result<Vec<ByteRange>, UnsatisfiableRange>,
>)
    ensures
        match maybe_range_ref {
            Some(text) => match r {
                Some(Ok(bytes)) => ranges_of(text@, file_size) == Some(bytes@),
                Some(Err(_)) => ranges_of(text@, file_size) is None,
                None => false,
            },
            None => r is None,
        },
{
    match maybe_range_ref {
        Some(text) => match parse_range_header(text) {
            Ok(ranges) => Some(resolve_ranges(&ranges, file_size)),
            Err(_) => Some(Err(UnsatisfiableRange)),
        },
        None => None,
    }
}

/// Why a range header is refused.
#[derive(Copy, Clone, Debug, PartialEq, Eq, Structural)]
pub enum ValidateRangeError {
    TooManyRanges,
    MissingRange,
    InvalidHeader,
}

impl ValidateRangeError {
    /// What the client is told.
    pub open spec fn text(self) -> Seq<char> {
        match self {
            ValidateRangeError::TooManyRanges => "cannot serve multipart range requests"@,
            ValidateRangeError::MissingRange => "no ranges found after parsing range header"@,
            ValidateRangeError::InvalidHeader => "invalidate range header"@,
        }
    }

    /// What the client is told.
    pub fn message(&self) -> (message: &'static str)
        ensures
            message@ == self.text(),
    {
        match self {
            ValidateRangeError::TooManyRanges => "cannot serve multipart range requests",
            ValidateRangeError::MissingRange => "no ranges found after parsing range header",
            ValidateRangeError::InvalidHeader => "invalidate range header",
        }
    }
}

/// The one range to serve, out of what a range header asks for.
pub open spec fn single_range(ranges: Option<Option<Seq<ByteRange>>>) -> Result<
    Option<ByteRange>,
    ValidateRangeError,
> {
    match ranges {
        None => Ok(None),
        Some(None) => Err(ValidateRangeError::InvalidHeader),
        Some(Some(ranges)) => if ranges.len() > 1 {
            Err(ValidateRangeError::TooManyRanges)
        } else if ranges.len() == 0 {
            Err(ValidateRangeError::MissingRange)
        } else {
            Ok(Some(ranges[0]))
        },
    }
}

/// The ranges of the outcome of reading an optional range header.
pub open spec fn ranges_view(
    ranges: Option<Result<Vec<ByteRange>, UnsatisfiableRange>>,
) -> Option<Option<Seq<ByteRange>>> {
    match ranges {
        None => None,
        Some(Err(_)) => Some(None),
        Some(Ok(ranges)) => Some(Some(ranges@)),
    }
}

/// Takes the one range to serve. Requests for several ranges are not served.
pub fn validate_range(maybe_ranges: &Option<Result<Vec<ByteRange>, UnsatisfiableRange>>) -> (r:
    Result<Option<ByteRange>, ValidateRangeError>)
    ensures
        r == single_range(ranges_view(*maybe_ranges)),
{
    match maybe_ranges {
        Some(Ok(ranges)) => {
            if ranges.len() > 1 {
                return Err(ValidateRangeError::TooManyRanges);
            }
            if ranges.len() == 0 {
                return Err(ValidateRangeError::MissingRange);
            }
            Ok(Some(ranges[0]))
        },
        Some(Err(_)) => Err(ValidateRangeError::InvalidHeader),
        None => Ok(None),
    }
}

/// Exactly one range is served. Without a range header there is nothing to check; a header
/// that asks for none, for several ranges, or for what cannot be had is refused, each with a
/// message of its own.
pub proof fn law_one_range_is_served(ranges: Seq<ByteRange>)
    ensures
        single_range(None) == Ok::<Option<ByteRange>, ValidateRangeError>(None),
        ranges.len() == 1 ==> single_range(Some(Some(ranges))) == Ok::<_, ValidateRangeError>(
            Some(ranges[0]),
        ),
        ranges.len() != 1 ==> single_range(Some(Some(ranges))) is Err,
        ranges.len() > 1 ==> single_range(Some(Some(ranges)))->Err_0.text()
            == "cannot serve multipart range requests"@,
        ranges.len() == 0 ==> single_range(Some(Some(ranges)))->Err_0.text()
            == "no ranges found after parsing range header"@,
        single_range(Some(None)) is Err,
        single_range(Some(None))->Err_0.text() == "invalidate range header"@,
{
}

/// What a header asks for is what the range parser reads in it, held against the size of the
/// file; a header that cannot be read asks for nothing that can be had.
pub proof fn law_ranges_are_held_against_the_size(text: Seq<char>, size: u64)
    ensures
        ranges_in_header(text) is None ==> ranges_of(text, size) is None,
        ranges_in_header(text) matches Some(ranges) ==> ranges_of(text, size) == validated(
            ranges,
            size,
        ),
{
}

} // verus!

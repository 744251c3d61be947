use http::header::{HeaderMap, HeaderValue};
use sveltum::content_encoding::{encodings, negotiate, Encoding, QValue};

fn accepting(values: &[&str]) -> HeaderMap {
    let mut headers = HeaderMap::new();
    for value in values {
        headers.append("accept-encoding", HeaderValue::from_str(value).unwrap());
    }
    headers
}

#[test]
fn encoding_names() {
    assert_eq!(Encoding::Gzip.to_str(), "gzip");
    assert_eq!(Encoding::Brotli.to_str(), "br");
    assert_eq!(Encoding::Identity.to_str(), "identity");
}

#[test]
fn encoding_file_extensions() {
    assert_eq!(Encoding::Gzip.to_file_extension(), Some(".gz"));
    assert_eq!(Encoding::Brotli.to_file_extension(), Some(".br"));
    assert_eq!(Encoding::Identity.to_file_extension(), None);
}

#[test]
fn encoding_header_values() {
    assert_eq!(Encoding::Gzip.into_header_value(), "gzip");
    assert_eq!(Encoding::Brotli.into_header_value(), "br");
    assert_eq!(Encoding::Identity.into_header_value(), "identity");
}

#[test]
fn encoding_is_parsed_ignoring_case() {
    assert_eq!(Encoding::parse("GZip"), Some(Encoding::Gzip));
    assert_eq!(Encoding::parse("x-gzip"), Some(Encoding::Gzip));
    assert_eq!(Encoding::parse("BR"), Some(Encoding::Brotli));
    assert_eq!(Encoding::parse("Identity"), Some(Encoding::Identity));
    assert_eq!(Encoding::parse("zstd"), None);
    assert_eq!(Encoding::parse(""), None);
    assert_eq!(Encoding::parse(" br"), None);
}

#[test]
fn quality_values_are_thousandths() {
    assert_eq!(QValue::one(), QValue(1000));
    assert_eq!(QValue::parse("q=0"), Some(QValue(0)));
    assert_eq!(QValue::parse("q=1"), Some(QValue(1000)));
    assert_eq!(QValue::parse("Q=0.5"), Some(QValue(500)));
    assert_eq!(QValue::parse("q=0.05"), Some(QValue(50)));
    assert_eq!(QValue::parse("q=0.123"), Some(QValue(123)));
    assert_eq!(QValue::parse("q=1.000"), Some(QValue(1000)));
    assert_eq!(QValue::parse("q=0."), Some(QValue(0)));
    assert_eq!(QValue::parse("q=1."), Some(QValue(1000)));
}

#[test]
fn malformed_quality_values_are_refused() {
    assert_eq!(QValue::parse(""), None);
    assert_eq!(QValue::parse("q"), None);
    assert_eq!(QValue::parse("q="), None);
    assert_eq!(QValue::parse("w=1"), None);
    assert_eq!(QValue::parse("q1"), None);
    assert_eq!(QValue::parse("q=2"), None);
    assert_eq!(QValue::parse("q=.5"), None);
    assert_eq!(QValue::parse("q=0,5"), None);
    assert_eq!(QValue::parse("q=0.1234"), None);
    assert_eq!(QValue::parse("q=1.001"), None);
    assert_eq!(QValue::parse("q=0.x"), None);
    assert_eq!(QValue::parse("q=00"), None);
}

#[test]
fn all_accepted_encodings_are_read() {
    let headers = accepting(&["gzip;q=0.5, br", "deflate, identity ; q=0.1"]);
    assert_eq!(
        encodings(&headers),
        vec![
            (Encoding::Gzip, QValue(500)),
            (Encoding::Brotli, QValue(1000)),
            (Encoding::Identity, QValue(100)),
        ]
    );
}

#[test]
fn accepted_encodings_with_a_malformed_quality_are_ignored() {
    let headers = accepting(&["gzip;q=5, br;level=1, x-gzip"]);
    assert_eq!(encodings(&headers), vec![(Encoding::Gzip, QValue(1000))]);
}

#[test]
fn values_that_are_not_text_are_ignored() {
    let mut headers = accepting(&["br"]);
    headers.append("accept-encoding", HeaderValue::from_bytes(b"gzip\xff").unwrap());
    assert_eq!(encodings(&headers), vec![(Encoding::Brotli, QValue(1000))]);
}

#[test]
fn no_header_accepts_nothing() {
    assert_eq!(encodings(&HeaderMap::new()), vec![]);
}

#[test]
fn negotiation_prefers_quality_then_order() {
    let choices = vec![
        (Encoding::Identity, QValue(100)),
        (Encoding::Gzip, QValue(500)),
        (Encoding::Brotli, QValue(500)),
        (Encoding::Gzip, QValue(0)),
        (Encoding::Identity, QValue(1000)),
    ];
    assert_eq!(
        negotiate(&choices),
        vec![Encoding::Identity, Encoding::Gzip, Encoding::Brotli, Encoding::Identity]
    );
}

#[test]
fn negotiation_drops_what_is_not_acceptable() {
    let choices = vec![(Encoding::Gzip, QValue(0)), (Encoding::Brotli, QValue(0))];
    assert_eq!(negotiate(&choices), vec![]);
    assert_eq!(negotiate(&vec![]), vec![]);
}

#[test]
fn preferred_encoding_breaks_ties_by_encoding() {
    let choices = vec![
        (Encoding::Brotli, QValue(700)),
        (Encoding::Identity, QValue(700)),
        (Encoding::Gzip, QValue(700)),
    ];
    assert_eq!(Encoding::preferred_encoding(&choices), Some(Encoding::Brotli));
}

#[test]
fn preferred_encoding_has_the_highest_quality() {
    let choices = vec![
        (Encoding::Brotli, QValue(200)),
        (Encoding::Gzip, QValue(300)),
        (Encoding::Identity, QValue(0)),
    ];
    assert_eq!(Encoding::preferred_encoding(&choices), Some(Encoding::Gzip));
    assert_eq!(Encoding::preferred_encoding(&vec![(Encoding::Gzip, QValue(0))]), None);
    assert_eq!(Encoding::preferred_encoding(&vec![]), None);
}

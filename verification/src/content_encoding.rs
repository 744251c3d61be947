//! Content encodings and the `Accept-Encoding` header.
use crate::header_map::{self, get_all_headers, value_text};
use crate::text::{self, chars_of, split, split_once, trim};
use http::header::{HeaderMap, HeaderValue};
use vstd::prelude::*;

verus! {

/// An encoding in which a file can be served. The variants stand in order from the
/// least to the most preferred.
#[derive(Copy, Clone, Debug, PartialEq, Eq, PartialOrd, Ord, Structural)]
pub enum Encoding {
    Identity,
    Gzip,
    Brotli,
}

/// A quality value: a number between 0 and 1 with at most 3 digits in the fractional
/// part, held as the number of thousandths.
#[derive(Copy, Clone, Debug, PartialEq, Eq, PartialOrd, Ord, Structural)]
pub struct QValue(pub u16);

/// Whether two texts are the same up to the case of ASCII letters.
pub open spec fn same_ignoring_case(a: Seq<char>, b: Seq<char>) -> bool {
    header_map::lower_text(a) == header_map::lower_text(b)
}

/// The encoding that a name in an `Accept-Encoding` header stands for.
pub open spec fn encoding_named(name: Seq<char>) -> Option<Encoding> {
    if same_ignoring_case(name, "gzip"@) || same_ignoring_case(name, "x-gzip"@) {
        Some(Encoding::Gzip)
    } else if same_ignoring_case(name, "br"@) {
        Some(Encoding::Brotli)
    } else if same_ignoring_case(name, "identity"@) {
        Some(Encoding::Identity)
    } else {
        None
    }
}

/// A decimal digit.
pub open spec fn is_digit(c: char) -> bool {
    '0' <= c <= '9'
}

/// The value of the decimal digit at an index, zero past the end.
pub open spec fn digit_at(digits: Seq<char>, i: int) -> int {
    if i < digits.len() {
        digits[i] as int - '0' as int
    } else {
        0
    }
}

/// The thousandths that a quality value such as `q=0.75` stands for.
pub open spec fn quality(text: Seq<char>) -> Option<int> {
    if text.len() < 3 || !(text[0] == 'q' || text[0] == 'Q') || text[1] != '=' || !(text[2] == '0'
        || text[2] == '1') {
        None
    } else {
        let whole: int = if text[2] == '1' {
            1000
        } else {
            0
        };
        if text.len() == 3 {
            Some(whole)
        } else {
            let fraction = text.skip(4);
            let value = whole + 100 * digit_at(fraction, 0) + 10 * digit_at(fraction, 1) + digit_at(
                fraction,
                2,
            );
            if text[3] == '.' && fraction.len() <= 3 && (forall|i: int|
                0 <= i < fraction.len() ==> is_digit(#[trigger] fraction[i])) && value <= 1000 {
                Some(value)
            } else {
                None
            }
        }
    }
}

fn lower_char(c: char) -> (r: char)
    ensures
        r == header_map::lower(c),
{
    if 'A' <= c && c <= 'Z' {
        (c as u8 + 32) as char
    } else {
        c
    }
}

/// Compares two texts up to the case of ASCII letters.
fn eq_ignoring_case(a: &str, b: &str) -> (r: bool)
    ensures
        r == same_ignoring_case(a@, b@),
{
    let left = chars_of(a);
    let right = chars_of(b);
    if left.len() != right.len() {
        assert(header_map::lower_text(a@).len() != header_map::lower_text(b@).len());
        return false;
    }
    let mut at: usize = 0;
    while at < left.len()
        invariant
            at <= left.len(),
            left.len() == right.len(),
            left@ == a@,
            right@ == b@,
            forall|i: int|
                0 <= i < at ==> header_map::lower(#[trigger] a@[i]) == header_map::lower(b@[i]),
        decreases left.len() - at,
    {
        if lower_char(left[at]) != lower_char(right[at]) {
            assert(header_map::lower_text(a@)[at as int] != header_map::lower_text(b@)[at as int]);
            return false;
        }
        at = at + 1;
    }
    assert(header_map::lower_text(a@) =~= header_map::lower_text(b@));
    true
}

impl Encoding {
    /// The name of the encoding in a header.
    pub open spec fn name(self) -> Seq<char> {
        match self {
            Encoding::Gzip => "gzip"@,
            Encoding::Brotli => "br"@,
            Encoding::Identity => "identity"@,
        }
    }

    /// What a file name ends with where the file holds content in this encoding.
    pub open spec fn extension(self) -> Option<Seq<char>> {
        match self {
            Encoding::Gzip => Some(".gz"@),
            Encoding::Brotli => Some(".br"@),
            Encoding::Identity => None,
        }
    }

    /// How much the encoding is preferred over the others.
    pub open spec fn rank(self) -> int {
        match self {
            Encoding::Identity => 0,
            Encoding::Gzip => 1,
            Encoding::Brotli => 2,
        }
    }

    /// The name of the encoding in a header.
    pub fn to_str(self) -> (name: &'static str)
        ensures
            name@ == self.name(),
    {
        match self {
            Encoding::Gzip => "gzip",
            Encoding::Brotli => "br",
            Encoding::Identity => "identity",
        }
    }

    /// What to append to the name of a file to get at its precompressed variant.
    pub fn to_file_extension(self) -> (extension: Option<&'static str>)
        ensures
            match extension {
                Some(extension) => self.extension() == Some(extension@),
                None => self.extension() is None,
            },
    {
        match self {
            Encoding::Gzip => Some(".gz"),
            Encoding::Brotli => Some(".br"),
            Encoding::Identity => None,
        }
    }

    /// The encoding as the value of a `Content-Encoding` header.
    pub fn into_header_value(self) -> (value: HeaderValue)
        ensures
            header_map::value_bytes(value) == vstd::utf8::encode_utf8(self.name()),
    {
        proof {
            reveal_strlit("gzip");
            reveal_strlit("br");
            reveal_strlit("identity");
            header_map::lemma_visible_bytes(self.name());
        }
        HeaderValue::from_static(self.to_str())
    }

    /// The encoding that a name stands for; names are compared without regard to case.
    pub fn parse(s: &str) -> (encoding: Option<Encoding>)
        ensures
            encoding == encoding_named(s@),
    {
        if eq_ignoring_case(s, "gzip") || eq_ignoring_case(s, "x-gzip") {
            return Some(Encoding::Gzip);
        }
        if eq_ignoring_case(s, "br") {
            return Some(Encoding::Brotli);
        }
        if eq_ignoring_case(s, "identity") {
            return Some(Encoding::Identity);
        }
        None
    }
}

impl QValue {
    /// The quality of what is named without one.
    pub fn one() -> (q: Self)
        ensures
            q == QValue(1000),
    {
        QValue(1000)
    }

    /// Parses a quality value such as `q=0.75`, as RFC 7231 section 5.3.1 has it.
    pub fn parse(s: &str) -> (q: Option<Self>)
        ensures
            match q {
                Some(q) => quality(s@) == Some(q.0 as int),
                None => quality(s@) is None,
            },
    {
        let chars = chars_of(s);
        if chars.len() < 3 || !(chars[0] == 'q' || chars[0] == 'Q') || chars[1] != '=' {
            return None;
        }
        // Only "0" and "1" can stand before the decimal point.
        let mut value: u16 = if chars[2] == '0' {
            0
        } else if chars[2] == '1' {
            1000
        } else {
            return None;
        };
        if chars.len() == 3 {
            return Some(QValue(value));
        }
        if chars[3] != '.' {
            return None;
        }
        let ghost whole = value as int;
        let ghost fraction = s@.skip(4);
        // The weight of the next digit in thousandths.
        let mut factor: u16 = 100;
        let mut at: usize = 4;
        while at < chars.len()
            invariant
                4 <= at <= chars.len(),
                at <= 7,
                chars@ == s@,
                fraction == s@.skip(4),
                forall|i: int| 0 <= i < at - 4 ==> is_digit(#[trigger] fraction[i]),
                factor == (if at == 4 {
                    100int
                } else if at == 5 {
                    10
                } else if at == 6 {
                    1
                } else {
                    0
                }),
                whole == 0 || whole == 1000,
                value == whole + (if at > 4 {
                    100 * digit_at(fraction, 0)
                } else {
                    0
                }) + (if at > 5 {
                    10 * digit_at(fraction, 1)
                } else {
                    0
                }) + (if at > 6 {
                    digit_at(fraction, 2)
                } else {
                    0
                }),
                s@.len() > 3,
                s@[0] == 'q' || s@[0] == 'Q',
                s@[1] == '=',
                s@[2] == '0' && whole == 0 || s@[2] == '1' && whole == 1000,
            decreases chars.len() - at,
        {
            let c = chars[at];
            assert(fraction[at - 4] == c);
            if !('0' <= c && c <= '9') {
                assert(!is_digit(fraction[at - 4]));
                return None;
            }
            if factor < 1 {
                // Three digits have already been read.
                return None;
            }
            let ghost d = digit_at(fraction, at - 4);
            let weight: u16 = (c as u8 - 48) as u16;
            assert(weight == d && d <= 9);
            assert(factor * weight <= 900) by (nonlinear_arith)
                requires
                    factor <= 100,
                    weight <= 9,
            ;
            value = value + factor * weight;
            factor = factor / 10;
            at = at + 1;
        }
        if value <= 1000 {
            Some(QValue(value))
        } else {
            None
        }
    }
}

/// What one element of an `Accept-Encoding` header accepts, if it names a known
/// encoding and its quality is well formed.
pub open spec fn accepted(element: Seq<char>) -> Option<(Encoding, QValue)> {
    match encoding_named(text::trim_blank(text::before(element, ';'))) {
        Some(encoding) => match text::after(element, ';') {
            None => Some((encoding, QValue(1000))),
            Some(parameter) => match quality(text::trim_blank(parameter)) {
                Some(q) => Some((encoding, QValue(q as u16))),
                None => None,
            },
        },
        None => None,
    }
}

/// What the elements accept, in their order.
pub open spec fn all_accepted(elements: Seq<Seq<char>>) -> Seq<(Encoding, QValue)>
    decreases elements.len(),
{
    if elements.len() == 0 {
        Seq::empty()
    } else {
        let earlier = all_accepted(elements.drop_last());
        match accepted(elements.last()) {
            Some(choice) => earlier.push(choice),
            None => earlier,
        }
    }
}

/// What the values of `Accept-Encoding` headers accept, in their order. A value that
/// does not read as text accepts nothing.
pub open spec fn accepted_by(values: Seq<Seq<u8>>) -> Seq<(Encoding, QValue)>
    decreases values.len(),
{
    if values.len() == 0 {
        Seq::empty()
    } else {
        let earlier = accepted_by(values.drop_last());
        if header_map::is_text(values.last()) {
            earlier + all_accepted(text::pieces(header_map::ascii_chars(values.last()), ','))
        } else {
            earlier
        }
    }
}

/// What the headers accept.
pub open spec fn accepted_encodings(headers: HeaderMap) -> Seq<(Encoding, QValue)> {
    accepted_by(header_map::values_of(header_map::header_values(headers), "accept-encoding"@))
}

/// A quality lies between zero and one.
pub proof fn law_quality_range(text: Seq<char>)
    ensures
        quality(text) matches Some(q) ==> 0 <= q <= 1000,
{
    if text.len() > 3 {
        let fraction = text.skip(4);
        if quality(text) is Some {
            assert(0 < fraction.len() ==> is_digit(fraction[0]));
            assert(1 < fraction.len() ==> is_digit(fraction[1]));
            assert(2 < fraction.len() ==> is_digit(fraction[2]));
        }
    }
}

fn accepted_element(element: &str) -> (choice: Option<(Encoding, QValue)>)
    ensures
        choice == accepted(element@),
{
    let (name, parameter) = split_once(element, ';');
    let name = trim(name.as_str());
    let encoding = match Encoding::parse(name.as_str()) {
        Some(encoding) => encoding,
        None => {
            return None;
        },
    };
    let q = match parameter {
        Some(parameter) => {
            let parameter = trim(parameter.as_str());
            match QValue::parse(parameter.as_str()) {
                Some(q) => q,
                None => {
                    return None;
                },
            }
        },
        None => QValue::one(),
    };
    Some((encoding, q))
}

/// Reads what the `Accept-Encoding` headers accept. Unknown encodings are ignored.
pub fn encodings(headers: &HeaderMap) -> (choices: Vec<(Encoding, QValue)>)
    ensures
        choices@ == accepted_encodings(*headers),
{
    proof {
        reveal_strlit("accept-encoding");
    }
    let name = header_map::known_name("accept-encoding");
    let values = get_all_headers(headers, &name);
    let ghost bytes = header_map::values_of(header_map::header_values(*headers), "accept-encoding"@);
    let mut choices: Vec<(Encoding, QValue)> = Vec::new();
    let mut at: usize = 0;
    while at < values.len()
        invariant
            at <= values.len(),
            bytes == values@.map_values(|value: &HeaderValue| header_map::value_bytes(*value)),
            choices@ == accepted_by(bytes.take(at as int)),
        decreases values.len() - at,
    {
        let ghost seen = bytes.take(at + 1);
        assert(seen.drop_last() == bytes.take(at as int));
        assert(seen.last() == header_map::value_bytes(*values@[at as int]));
        if let Some(value) = value_text(values[at]) {
            let elements = split(value, ',');
            let ghost earlier = choices@;
            let ghost names = text::texts(elements@);
            let mut next: usize = 0;
            assert(names.take(0) == Seq::<Seq<char>>::empty());
            assert(choices@ == earlier + all_accepted(names.take(0)));
            while next < elements.len()
                invariant
                    next <= elements.len(),
                    names == text::texts(elements@),
                    choices@ == earlier + all_accepted(names.take(next as int)),
                decreases elements.len() - next,
            {
                let ghost read = names.take(next + 1);
                assert(read.drop_last() == names.take(next as int));
                assert(read.last() == elements@[next as int]@);
                if let Some(choice) = accepted_element(elements[next].as_str()) {
                    choices.push(choice);
                }
                assert(choices@ == earlier + all_accepted(read));
                next = next + 1;
            }
            assert(names.take(names.len() as int) == names);
        }
        at = at + 1;
    }
    assert(bytes.take(bytes.len() as int) == bytes);
    choices
}

/// The encodings that are accepted with exactly this quality, in their order.
pub open spec fn of_quality(choices: Seq<(Encoding, QValue)>, q: nat) -> Seq<Encoding> {
    choices.filter(|choice: (Encoding, QValue)| choice.1.0 == q).map_values(
        |choice: (Encoding, QValue)| choice.0,
    )
}

/// The encodings that are accepted with a quality from `q` down to the least above
/// zero: a higher quality comes first, and where qualities are equal, what was named
/// first.
pub open spec fn by_quality(choices: Seq<(Encoding, QValue)>, q: nat) -> Seq<Encoding>
    decreases q,
{
    if q == 0 {
        Seq::empty()
    } else {
        of_quality(choices, q) + by_quality(choices, (q - 1) as nat)
    }
}

/// The acceptable encodings, the most preferred first. What is accepted with quality
/// zero is not acceptable.
pub open spec fn negotiated(choices: Seq<(Encoding, QValue)>) -> Seq<Encoding> {
    by_quality(choices, u16::MAX as nat)
}

/// The choices of one quality, in their order.
spec fn with_quality(choices: Seq<(Encoding, QValue)>, q: nat) -> Seq<(Encoding, QValue)> {
    choices.filter(|choice: (Encoding, QValue)| choice.1.0 == q)
}

/// A higher quality stands before a lower one, and none is zero.
spec fn is_ranked(choices: Seq<(Encoding, QValue)>) -> bool {
    &&& forall|i: int| 0 <= i < choices.len() ==> (#[trigger] choices[i]).1.0 > 0
    &&& forall|i: int, j: int|
        0 <= i < j < choices.len() ==> (#[trigger] choices[i]).1.0 >= (#[trigger] choices[j]).1.0
}

proof fn lemma_none_with_quality(choices: Seq<(Encoding, QValue)>, q: nat)
    requires
        forall|i: int| 0 <= i < choices.len() ==> (#[trigger] choices[i]).1.0 != q,
    ensures
        with_quality(choices, q) == Seq::<(Encoding, QValue)>::empty(),
    decreases choices.len(),
{
    reveal(Seq::filter);
    if choices.len() > 0 {
        assert(choices.last().1.0 != q);
        assert forall|i: int| 0 <= i < choices.drop_last().len() implies (
        #[trigger] choices.drop_last()[i]).1.0 != q by {
            assert(choices.drop_last()[i] == choices[i]);
        }
        lemma_none_with_quality(choices.drop_last(), q);
    }
}

proof fn lemma_none_by_quality(choices: Seq<(Encoding, QValue)>, q: nat)
    requires
        forall|i: int| 0 <= i < choices.len() ==> (#[trigger] choices[i]).1.0 > q,
    ensures
        by_quality(choices, q) == Seq::<Encoding>::empty(),
    decreases q,
{
    if q > 0 {
        lemma_none_with_quality(choices, q);
        lemma_none_by_quality(choices, (q - 1) as nat);
        assert(of_quality(choices, q) =~= Seq::<Encoding>::empty());
    }
}

proof fn lemma_by_quality_of_last(
    choices: Seq<(Encoding, QValue)>,
    last: (Encoding, QValue),
    q: nat,
)
    requires
        0 < last.1.0 <= q,
        forall|i: int| 0 <= i < choices.len() ==> (#[trigger] choices[i]).1.0 >= last.1.0,
    ensures
        by_quality(choices.push(last), q) == by_quality(choices, q).push(last.0),
    decreases q,
{
    reveal(Seq::filter);
    let more = choices.push(last);
    assert(more.drop_last() == choices);
    if last.1.0 < q {
        lemma_by_quality_of_last(choices, last, (q - 1) as nat);
        assert(of_quality(more, q) == of_quality(choices, q));
        assert(by_quality(more, q) =~= by_quality(choices, q).push(last.0));
    } else {
        lemma_none_by_quality(choices, (q - 1) as nat);
        lemma_none_by_quality(more, (q - 1) as nat);
        assert(with_quality(more, q) == with_quality(choices, q).push(last));
        assert(of_quality(more, q) =~= of_quality(choices, q).push(last.0));
        assert(by_quality(more, q) =~= by_quality(choices, q).push(last.0));
    }
}

proof fn lemma_ranked(choices: Seq<(Encoding, QValue)>)
    requires
        is_ranked(choices),
    ensures
        negotiated(choices) == choices.map_values(|choice: (Encoding, QValue)| choice.0),
    decreases choices.len(),
{
    if choices.len() == 0 {
        lemma_none_by_quality(choices, u16::MAX as nat);
        assert(choices.map_values(|choice: (Encoding, QValue)| choice.0) =~= Seq::<Encoding>::empty());
    } else {
        let earlier = choices.drop_last();
        let last = choices.last();
        assert(earlier.push(last) == choices);
        assert forall|i: int| 0 <= i < earlier.len() implies (#[trigger] earlier[i]).1.0
            >= last.1.0 by {
            assert(earlier[i] == choices[i]);
        }
        assert(is_ranked(earlier)) by {
            assert forall|i: int, j: int| 0 <= i < j < earlier.len() implies (
            #[trigger] earlier[i]).1.0 >= (#[trigger] earlier[j]).1.0 by {
                assert(earlier[i] == choices[i] && earlier[j] == choices[j]);
            }
        }
        lemma_ranked(earlier);
        lemma_by_quality_of_last(earlier, last, u16::MAX as nat);
        assert(choices.map_values(|choice: (Encoding, QValue)| choice.0) =~= earlier.map_values(
            |choice: (Encoding, QValue)| choice.0,
        ).push(last.0));
    }
}

proof fn lemma_same_by_quality(
    a: Seq<(Encoding, QValue)>,
    b: Seq<(Encoding, QValue)>,
    q: nat,
)
    requires
        forall|k: nat| 0 < k ==> #[trigger] with_quality(a, k) == with_quality(b, k),
    ensures
        by_quality(a, q) == by_quality(b, q),
    decreases q,
{
    if q > 0 {
        assert(with_quality(a, q) == with_quality(b, q));
        lemma_same_by_quality(a, b, (q - 1) as nat);
    }
}

proof fn lemma_insert_ranked(
    choices: Seq<(Encoding, QValue)>,
    at: int,
    choice: (Encoding, QValue),
)
    requires
        is_ranked(choices),
        choice.1.0 > 0,
        0 <= at <= choices.len(),
        forall|i: int| 0 <= i < at ==> (#[trigger] choices[i]).1.0 >= choice.1.0,
        forall|i: int| at <= i < choices.len() ==> (#[trigger] choices[i]).1.0 < choice.1.0,
    ensures
        is_ranked(choices.insert(at, choice)),
        forall|q: nat|
            #[trigger] with_quality(choices.insert(at, choice), q) == (if q == choice.1.0 {
                with_quality(choices, q).push(choice)
            } else {
                with_quality(choices, q)
            }),
{
    let front = choices.take(at);
    let back = choices.skip(at);
    let more = choices.insert(at, choice);
    assert(choices == front + back);
    assert(more == front + seq![choice] + back);
    assert forall|i: int, j: int| 0 <= i < j < more.len() implies (#[trigger] more[i]).1.0 >= (
    #[trigger] more[j]).1.0 by {
        let left = if i < at {
            choices[i]
        } else if i == at {
            choice
        } else {
            choices[i - 1]
        };
        let right = if j < at {
            choices[j]
        } else if j == at {
            choice
        } else {
            choices[j - 1]
        };
        assert(more[i] == left && more[j] == right);
    }
    assert forall|i: int| 0 <= i < more.len() implies (#[trigger] more[i]).1.0 > 0 by {
        assert(more[i] == (if i < at {
            choices[i]
        } else if i == at {
            choice
        } else {
            choices[i - 1]
        }));
    }
    assert forall|q: nat|
        #[trigger] with_quality(more, q) == (if q == choice.1.0 {
            with_quality(choices, q).push(choice)
        } else {
            with_quality(choices, q)
        }) by {
        let wanted = |choice: (Encoding, QValue)| choice.1.0 == q;
        Seq::filter_distributes_over_add(front, back, wanted);
        Seq::filter_distributes_over_add(front + seq![choice], back, wanted);
        Seq::filter_distributes_over_add(front, seq![choice], wanted);
        assert(seq![choice].filter(wanted) == (if wanted(choice) {
            seq![choice]
        } else {
            Seq::empty()
        })) by {
            reveal(Seq::filter);
            assert(seq![choice].drop_last() == Seq::<(Encoding, QValue)>::empty());
            assert(Seq::<(Encoding, QValue)>::empty().filter(wanted) == Seq::<
                (Encoding, QValue),
            >::empty());
            assert(Seq::<(Encoding, QValue)>::empty().push(choice) == seq![choice]);
        }
        if q == choice.1.0 {
            lemma_none_with_quality(back, q);
            assert(with_quality(more, q) =~= with_quality(choices, q).push(choice));
        } else {
            assert(with_quality(more, q) =~= with_quality(choices, q));
        }
    }
}

/// Orders the acceptable encodings by preference, the highest quality first.
pub fn negotiate(choices: &Vec<(Encoding, QValue)>) -> (r: Vec<Encoding>)
    ensures
        r@ == negotiated(choices@),
{
    let mut ranked: Vec<(Encoding, QValue)> = Vec::new();
    let mut next: usize = 0;
    while next < choices.len()
        invariant
            next <= choices.len(),
            is_ranked(ranked@),
            forall|q: nat|
                0 < q ==> #[trigger] with_quality(ranked@, q) == with_quality(
                    choices@.take(next as int),
                    q,
                ),
        decreases choices.len() - next,
    {
        let choice = choices[next];
        let ghost seen = choices@.take(next + 1);
        let ghost old_ranked = ranked@;
        proof {
            reveal(Seq::filter);
            assert(seen.drop_last() == choices@.take(next as int));
            assert(seen.last() == choice);
        }
        if choice.1.0 > 0 {
            let mut at: usize = ranked.len();
            while at > 0 && ranked[at - 1].1.0 < choice.1.0
                invariant
                    at <= ranked.len(),
                    forall|i: int|
                        at <= i < ranked.len() ==> (#[trigger] ranked@[i]).1.0 < choice.1.0,
                decreases at,
            {
                at = at - 1;
            }
            proof {
                lemma_insert_ranked(ranked@, at as int, choice);
            }
            ranked.insert(at, choice);
        }
        assert forall|q: nat| 0 < q implies #[trigger] with_quality(ranked@, q) == with_quality(
            seen,
            q,
        ) by {
            assert(with_quality(old_ranked, q) == with_quality(choices@.take(next as int), q));
        }
        next = next + 1;
    }
    proof {
        assert(choices@.take(choices@.len() as int) == choices@);
        lemma_same_by_quality(ranked@, choices@, u16::MAX as nat);
        lemma_ranked(ranked@);
    }
    let mut r: Vec<Encoding> = Vec::new();
    let mut at: usize = 0;
    while at < ranked.len()
        invariant
            at <= ranked.len(),
            r@ == ranked@.take(at as int).map_values(|choice: (Encoding, QValue)| choice.0),
        decreases ranked.len() - at,
    {
        r.push(ranked[at].0);
        at = at + 1;
        assert(ranked@.take(at as int).map_values(|choice: (Encoding, QValue)| choice.0)
            =~= ranked@.take(at - 1).map_values(|choice: (Encoding, QValue)| choice.0).push(
            ranked@[at - 1].0,
        ));
    }
    assert(ranked@.take(ranked@.len() as int) == ranked@);
    r
}

/// Whether a choice is preferred over another: its quality is higher, or with the same
/// quality its encoding is preferred.
pub open spec fn outranks(a: (Encoding, QValue), b: (Encoding, QValue)) -> bool {
    a.1.0 > b.1.0 || a.1.0 == b.1.0 && a.0.rank() > b.0.rank()
}

/// The most preferred of the acceptable choices, if there is one.
pub open spec fn best_choice(choices: Seq<(Encoding, QValue)>) -> Option<(Encoding, QValue)>
    decreases choices.len(),
{
    if choices.len() == 0 {
        None
    } else {
        let last = choices.last();
        match best_choice(choices.drop_last()) {
            Some(best) => if last.1.0 > 0 && outranks(last, best) {
                Some(last)
            } else {
                Some(best)
            },
            None => if last.1.0 > 0 {
                Some(last)
            } else {
                None
            },
        }
    }
}

/// The encoding of the most preferred choice.
pub open spec fn best_encoding(choices: Seq<(Encoding, QValue)>) -> Option<Encoding> {
    match best_choice(choices) {
        Some(choice) => Some(choice.0),
        None => None,
    }
}

impl Encoding {
    /// How much the encoding is preferred over the others.
    fn order(self) -> (order: u8)
        ensures
            order == self.rank(),
    {
        match self {
            Encoding::Identity => 0,
            Encoding::Gzip => 1,
            Encoding::Brotli => 2,
        }
    }

    /// The most preferred encoding among those that are acceptable: the one with the
    /// highest quality, and among several of them the one that comes last in the order
    /// of the variants.
    pub fn preferred_encoding(accepted_encodings: &Vec<(Encoding, QValue)>) -> (r: Option<Encoding>)
        ensures
            r == best_encoding(accepted_encodings@),
    {
        let mut best: Option<(Encoding, QValue)> = None;
        let mut at: usize = 0;
        while at < accepted_encodings.len()
            invariant
                at <= accepted_encodings.len(),
                best == best_choice(accepted_encodings@.take(at as int)),
            decreases accepted_encodings.len() - at,
        {
            let choice = accepted_encodings[at];
            if choice.1.0 > 0 {
                let better = match best {
                    Some(best) => choice.1.0 > best.1.0 || choice.1.0 == best.1.0
                        && choice.0.order() > best.0.order(),
                    None => true,
                };
                if better {
                    best = Some(choice);
                }
            }
            proof {
                let seen = accepted_encodings@.take(at + 1);
                assert(seen.drop_last() == accepted_encodings@.take(at as int));
                assert(seen.last() == choice);
            }
            at = at + 1;
        }
        assert(accepted_encodings@.take(at as int) == accepted_encodings@);
        match best {
            Some(choice) => Some(choice.0),
            None => None,
        }
    }
}

/// The preferred choice is one of the acceptable choices, and none of these is preferred
/// over it. There is none only where nothing is acceptable.
pub proof fn law_best_choice(choices: Seq<(Encoding, QValue)>)
    ensures
        match best_choice(choices) {
            Some(best) => {
                &&& choices.contains(best)
                &&& best.1.0 > 0
                &&& forall|i: int|
                    0 <= i < choices.len() ==> !outranks(#[trigger] choices[i], best)
            },
            None => forall|i: int| 0 <= i < choices.len() ==> (#[trigger] choices[i]).1.0 == 0,
        },
    decreases choices.len(),
{
    if choices.len() > 0 {
        let front = choices.drop_last();
        law_best_choice(front);
        assert forall|i: int| 0 <= i < choices.len() - 1 implies choices[i] == front[i] by {}
        assert(choices[choices.len() - 1] == choices.last());
        match best_choice(front) {
            Some(best) => {
                let at = choose|i: int| 0 <= i < front.len() && front[i] == best;
                assert(choices[at] == best);
            },
            None => {},
        }
    }
}

proof fn lemma_of_quality(choices: Seq<(Encoding, QValue)>, q: nat, encoding: Encoding)
    ensures
        of_quality(choices, q).contains(encoding) <==> exists|i: int|
            0 <= i < choices.len() && #[trigger] choices[i].0 == encoding && choices[i].1.0 == q,
{
    let matching = |choice: (Encoding, QValue)| choice.1.0 == q;
    let kept = choices.filter(matching);
    assert(of_quality(choices, q) =~= kept.map_values(|choice: (Encoding, QValue)| choice.0));
    if of_quality(choices, q).contains(encoding) {
        let at = choose|at: int|
            0 <= at < of_quality(choices, q).len() && of_quality(choices, q)[at] == encoding;
        choices.lemma_filter_pred(matching, at);
        assert(kept.contains(kept[at]));
        choices.lemma_filter_contains_rev(matching, kept[at]);
        let i = choose|i: int| 0 <= i < choices.len() && choices[i] == kept[at];
        assert(choices[i].0 == encoding);
    }
    if exists|i: int|
        0 <= i < choices.len() && #[trigger] choices[i].0 == encoding && choices[i].1.0 == q {
        let i = choose|i: int|
            0 <= i < choices.len() && #[trigger] choices[i].0 == encoding && choices[i].1.0 == q;
        choices.lemma_filter_contains(matching, i);
        let at = choose|at: int| 0 <= at < kept.len() && kept[at] == choices[i];
        assert(of_quality(choices, q)[at] == encoding);
    }
}

proof fn lemma_by_quality(choices: Seq<(Encoding, QValue)>, q: nat, encoding: Encoding)
    ensures
        by_quality(choices, q).contains(encoding) <==> exists|i: int|
            0 <= i < choices.len() && #[trigger] choices[i].0 == encoding && 0 < choices[i].1.0
                <= q,
    decreases q,
{
    if q > 0 {
        let first = of_quality(choices, q);
        let rest = by_quality(choices, (q - 1) as nat);
        lemma_of_quality(choices, q, encoding);
        lemma_by_quality(choices, (q - 1) as nat, encoding);
        if first.contains(encoding) {
            let at = choose|at: int| 0 <= at < first.len() && first[at] == encoding;
            assert((first + rest)[at] == encoding);
        }
        if rest.contains(encoding) {
            let at = choose|at: int| 0 <= at < rest.len() && rest[at] == encoding;
            assert((first + rest)[first.len() + at] == encoding);
        }
        if (first + rest).contains(encoding) {
            let at = choose|at: int|
                0 <= at < (first + rest).len() && (first + rest)[at] == encoding;
            if at < first.len() {
                assert(first[at] == encoding);
            } else {
                assert(rest[at - first.len()] == encoding);
            }
        }
    }
}

proof fn lemma_tail(choices: Seq<(Encoding, QValue)>, n: nat, q: nat)
    requires
        q <= n,
    ensures
        by_quality(choices, q).len() <= by_quality(choices, n).len(),
        by_quality(choices, n).skip(
            by_quality(choices, n).len() - by_quality(choices, q).len(),
        ) == by_quality(choices, q),
    decreases n,
{
    if q < n {
        lemma_tail(choices, (n - 1) as nat, q);
        let whole = by_quality(choices, n);
        let rest = by_quality(choices, (n - 1) as nat);
        let end = by_quality(choices, q);
        assert(whole == of_quality(choices, n) + rest);
        assert(whole.skip(whole.len() - end.len()) =~= rest.skip(rest.len() - end.len()));
    } else {
        assert(by_quality(choices, n).skip(0) =~= by_quality(choices, n));
    }
}

/// The negotiated encodings are those that are accepted with a quality above zero, and
/// no others.
pub proof fn law_negotiated_is_acceptable(choices: Seq<(Encoding, QValue)>, encoding: Encoding)
    ensures
        negotiated(choices).contains(encoding) <==> exists|i: int|
            0 <= i < choices.len() && #[trigger] choices[i].0 == encoding && choices[i].1.0 > 0,
{
    lemma_by_quality(choices, u16::MAX as nat, encoding);
}

/// Whether one encoding stands somewhere before another.
pub open spec fn stands_before(encodings: Seq<Encoding>, a: Encoding, b: Encoding) -> bool {
    exists|i: int, j: int|
        0 <= i < j < encodings.len() && #[trigger] encodings[i] == a && #[trigger] encodings[j]
            == b
}

proof fn lemma_order_kept(choices: Seq<(Encoding, QValue)>, q: nat, i: int, j: int)
    requires
        0 <= i < j < choices.len(),
        choices[i].1.0 == q,
        choices[j].1.0 == q,
    ensures
        stands_before(of_quality(choices, q), choices[i].0, choices[j].0),
    decreases choices.len(),
{
    reveal(Seq::filter);
    let front = choices.drop_last();
    let last = choices.last();
    let kept = of_quality(front, q);
    assert(front[i] == choices[i]);
    assert(of_quality(choices, q) =~= if last.1.0 == q {
        kept.push(last.0)
    } else {
        kept
    });
    if j == choices.len() - 1 {
        lemma_of_quality(front, q, choices[i].0);
        assert(front[i].0 == choices[i].0);
        let a = choose|a: int| 0 <= a < kept.len() && kept[a] == choices[i].0;
        assert(of_quality(choices, q)[a] == choices[i].0);
        assert(of_quality(choices, q)[kept.len() as int] == choices[j].0);
    } else {
        assert(front[j] == choices[j]);
        lemma_order_kept(front, q, i, j);
        let (a, b) = choose|a: int, b: int|
            0 <= a < b < kept.len() && #[trigger] kept[a] == choices[i].0 && #[trigger] kept[b]
                == choices[j].0;
        assert(of_quality(choices, q)[a] == choices[i].0);
        assert(of_quality(choices, q)[b] == choices[j].0);
    }
}

/// An encoding that is accepted with a higher quality comes before one that is accepted
/// with a lower one; with the same quality, the one that was named first comes first.
pub proof fn law_negotiated_order(choices: Seq<(Encoding, QValue)>, i: int, j: int)
    requires
        0 <= i < choices.len(),
        0 <= j < choices.len(),
        choices[j].1.0 > 0,
        choices[i].1.0 > choices[j].1.0 || choices[i].1.0 == choices[j].1.0 && i < j,
    ensures
        stands_before(negotiated(choices), choices[i].0, choices[j].0),
{
    let n = u16::MAX as nat;
    let high = choices[i].1.0 as nat;
    let whole = negotiated(choices);
    let tail = by_quality(choices, high);
    let first = of_quality(choices, high);
    let rest = by_quality(choices, (high - 1) as nat);
    lemma_tail(choices, n, high);
    lemma_of_quality(choices, high, choices[i].0);
    lemma_by_quality(choices, (high - 1) as nat, choices[j].0);
    let start = whole.len() - tail.len();
    assert(tail == first + rest);
    if choices[i].1.0 > choices[j].1.0 {
        let a = choose|a: int| 0 <= a < first.len() && first[a] == choices[i].0;
        let b = choose|b: int| 0 <= b < rest.len() && rest[b] == choices[j].0;
        assert(tail[a] == choices[i].0);
        assert(tail[first.len() + b] == choices[j].0);
        assert(whole[start + a] == whole.skip(start)[a]);
        assert(whole[start + first.len() + b] == whole.skip(start)[first.len() + b]);
    } else {
        lemma_order_kept(choices, high, i, j);
        let (a, b) = choose|a: int, b: int|
            0 <= a < b < first.len() && #[trigger] first[a] == choices[i].0 && #[trigger] first[b]
                == choices[j].0;
        assert(tail[a] == choices[i].0);
        assert(tail[b] == choices[j].0);
        assert(whole[start + a] == whole.skip(start)[a]);
        assert(whole[start + b] == whole.skip(start)[b]);
    }
}

proof fn lemma_lower_names()
    ensures
        header_map::lower_text("gzip"@) == "gzip"@,
        header_map::lower_text("x-gzip"@) == "x-gzip"@,
        header_map::lower_text("br"@) == "br"@,
        header_map::lower_text("identity"@) == "identity"@,
        "gzip"@.len() == 4,
        "x-gzip"@.len() == 6,
        "br"@.len() == 2,
        "identity"@.len() == 8,
{
    reveal_strlit("gzip");
    reveal_strlit("x-gzip");
    reveal_strlit("br");
    reveal_strlit("identity");
    assert(header_map::lower_text("gzip"@) =~= "gzip"@);
    assert(header_map::lower_text("x-gzip"@) =~= "x-gzip"@);
    assert(header_map::lower_text("br"@) =~= "br"@);
    assert(header_map::lower_text("identity"@) =~= "identity"@);
}

/// The names that stand for an encoding, written in capital or small letters, are `gzip` and
/// `x-gzip`, `br`, and `identity`. No other name stands for one.
pub proof fn law_names_of_encodings(name: Seq<char>)
    ensures
        encoding_named(name) == Some(Encoding::Gzip) <==> header_map::lower_text(name)
            == "gzip"@ || header_map::lower_text(name) == "x-gzip"@,
        encoding_named(name) == Some(Encoding::Brotli) <==> header_map::lower_text(name) == "br"@,
        encoding_named(name) == Some(Encoding::Identity) <==> header_map::lower_text(name)
            == "identity"@,
{
    lemma_lower_names();
}

/// An encoding is told by a name that stands for it, and files in it have an ending of their
/// own, but for those that are as they are.
pub proof fn law_encodings_are_told_by_their_names(encoding: Encoding)
    ensures
        encoding_named(encoding.name()) == Some(encoding),
        Encoding::Gzip.name() == "gzip"@,
        Encoding::Brotli.name() == "br"@,
        Encoding::Identity.name() == "identity"@,
        Encoding::Gzip.extension() == Some(".gz"@),
        Encoding::Brotli.extension() == Some(".br"@),
        Encoding::Identity.extension() is None,
        Encoding::Identity.rank() < Encoding::Gzip.rank() < Encoding::Brotli.rank(),
{
    lemma_lower_names();
}

/// A fraction of up to three digits counts in thousandths: filled up with zeros to three
/// digits, it is the number that they stand for. Without a fraction a quality is none or all.
pub proof fn law_quality_counts_thousandths(digits: Seq<char>, q: char)
    requires
        q == 'q' || q == 'Q',
        digits.len() <= 3,
        forall|i: int| 0 <= i < digits.len() ==> '0' <= #[trigger] digits[i] <= '9',
    ensures
        quality(seq![q, '=', '0']) == Some(0int),
        quality(seq![q, '=', '1']) == Some(1000int),
        quality(seq![q, '=', '0', '.'] + digits) == Some(
            text::number(digits + Seq::new((3 - digits.len()) as nat, |i: int| '0')),
        ),
        quality(seq![q, '=', '1', '.'] + digits) == (if forall|i: int|
            0 <= i < digits.len() ==> #[trigger] digits[i] == '0' {
            Some(1000int)
        } else {
            None
        }),
{
    let zeros = Seq::new((3 - digits.len()) as nat, |i: int| '0');
    let full = digits + zeros;
    reveal_with_fuel(text::number, 4);
    assert(full.len() == 3);
    let two = full.drop_last();
    let one = two.drop_last();
    assert(one.drop_last() =~= Seq::<char>::empty());
    assert(text::number(one) == full[0] as int - '0' as int);
    assert(text::number(two) == 10 * text::number(one) + (full[1] as int - '0' as int));
    assert(text::number(full) == 10 * text::number(two) + (full[2] as int - '0' as int));
    let below = seq![q, '=', '0', '.'] + digits;
    let above = seq![q, '=', '1', '.'] + digits;
    assert(below.skip(4) =~= digits);
    assert(above.skip(4) =~= digits);
    assert(below[0] == q && below[1] == '=' && below[2] == '0' && below[3] == '.');
    assert(above[0] == q && above[1] == '=' && above[2] == '1' && above[3] == '.');
    assert forall|i: int| 0 <= i < digits.len() implies is_digit(#[trigger] digits[i]) by {}
    assert(digit_at(digits, 0) == full[0] as int - '0' as int);
    assert(digit_at(digits, 1) == full[1] as int - '0' as int);
    assert(digit_at(digits, 2) == full[2] as int - '0' as int);
}

/// Text is a quality only if it starts with `q=` or `Q=` and a `0` or a `1`, and goes on, if
/// at all, with a point and up to three digits.
pub proof fn law_other_text_is_no_quality(text: Seq<char>)
    requires
        quality(text) is Some,
    ensures
        3 <= text.len() <= 7,
        text[0] == 'q' || text[0] == 'Q',
        text[1] == '=',
        text[2] == '0' || text[2] == '1',
        text.len() > 3 ==> text[3] == '.',
        forall|i: int| 4 <= i < text.len() ==> '0' <= #[trigger] text[i] <= '9',
{
    if text.len() > 3 {
        let fraction = text.skip(4);
        assert forall|i: int| 4 <= i < text.len() implies '0' <= #[trigger] text[i] <= '9' by {
            assert(is_digit(fraction[i - 4]));
        }
    }
}

/// An element names an encoding, and behind a semicolon its quality; without one the quality
/// is all. Blanks around the two do not count. An element with another name, or with a
/// quality that is none, accepts nothing.
pub proof fn law_elements_name_an_encoding(name: Seq<char>, parameter: Seq<char>)
    requires
        !name.contains(';'),
    ensures
        ({
            let encoding = encoding_named(text::trim_blank(name));
            let q = quality(text::trim_blank(parameter));
            &&& encoding is None ==> accepted(name) is None && accepted(
                name.push(';') + parameter,
            ) is None
            &&& encoding is Some ==> accepted(name) == Some((encoding->0, QValue(1000)))
            &&& encoding is Some && q is None ==> accepted(name.push(';') + parameter) is None
            &&& encoding is Some && q is Some ==> accepted(name.push(';') + parameter) == Some(
                (encoding->0, QValue(q->0 as u16)),
            )
        }),
{
    text::law_cut_at_the_first_occurrence(name, ';', parameter);
}

/// The elements of a value count one by one, in their order, and so do the values. What one
/// element accepts does not depend on the others.
pub proof fn law_elements_count_one_by_one(
    elements: Seq<Seq<char>>,
    element: Seq<char>,
    values: Seq<Seq<u8>>,
    value: Seq<u8>,
)
    ensures
        all_accepted(Seq::empty()) == Seq::<(Encoding, QValue)>::empty(),
        all_accepted(elements.push(element)) == (match accepted(element) {
            Some(choice) => all_accepted(elements).push(choice),
            None => all_accepted(elements),
        }),
        accepted_by(Seq::empty()) == Seq::<(Encoding, QValue)>::empty(),
        header_map::is_text(value) ==> accepted_by(values.push(value)) == accepted_by(values)
            + all_accepted(text::pieces(header_map::ascii_chars(value), ',')),
        !header_map::is_text(value) ==> accepted_by(values.push(value)) == accepted_by(values),
{
    assert(elements.push(element).drop_last() =~= elements);
    assert(values.push(value).drop_last() =~= values);
}

/// All of what the `Accept-Encoding` headers say counts, and nothing else does.
pub proof fn law_accept_encoding_headers_count(headers: HeaderMap)
    ensures
        accepted_encodings(headers) == accepted_by(
            header_map::values_of(header_map::header_values(headers), "accept-encoding"@),
        ),
{
}

/// Whether a choice is acceptable.
pub open spec fn is_acceptable() -> spec_fn((Encoding, QValue)) -> bool {
    |choice: (Encoding, QValue)| choice.1.0 > 0
}

proof fn lemma_one_more_choice(
    choices: Seq<(Encoding, QValue)>,
    choice: (Encoding, QValue),
    q: nat,
)
    ensures
        by_quality(choices.push(choice), q).len() == by_quality(choices, q).len() + (if 0
            < choice.1.0 <= q {
            1int
        } else {
            0int
        }),
    decreases q,
{
    reveal(Seq::filter);
    if q > 0 {
        lemma_one_more_choice(choices, choice, (q - 1) as nat);
        let more = choices.push(choice);
        assert(more.drop_last() =~= choices);
        assert(more.last() == choice);
        assert(with_quality(more, q).len() == of_quality(more, q).len());
        assert(with_quality(choices, q).len() == of_quality(choices, q).len());
        assert(with_quality(more, q) =~= if choice.1.0 == q {
            with_quality(choices, q).push(choice)
        } else {
            with_quality(choices, q)
        });
    }
}

/// Each acceptable choice is negotiated once: there are as many negotiated encodings as there
/// are acceptable choices.
pub proof fn law_choices_are_negotiated_once(choices: Seq<(Encoding, QValue)>)
    ensures
        negotiated(choices).len() == choices.filter(is_acceptable()).len(),
    decreases choices.len(),
{
    reveal(Seq::filter);
    if choices.len() > 0 {
        let front = choices.drop_last();
        let last = choices.last();
        law_choices_are_negotiated_once(front);
        lemma_one_more_choice(front, last, u16::MAX as nat);
        assert(front.push(last) =~= choices);
    } else {
        lemma_none_negotiated(choices, u16::MAX as nat);
    }
}

proof fn lemma_none_negotiated(choices: Seq<(Encoding, QValue)>, q: nat)
    requires
        choices.len() == 0,
    ensures
        by_quality(choices, q).len() == 0,
    decreases q,
{
    reveal(Seq::filter);
    if q > 0 {
        lemma_none_negotiated(choices, (q - 1) as nat);
    }
}

} // verus!

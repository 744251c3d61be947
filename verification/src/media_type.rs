//! The media types of files.
use crate::text::{chars_of, text_between};
use vstd::prelude::*;

verus! {

/// The media type that `mime_guess` finds first for an extension, if it knows one.
pub uninterp spec fn guessed_mime(extension: Seq<char>) -> Option<Seq<char>>;

/// The type and subtype of the media type that `mime_guess` finds first for an
/// extension, or of arbitrary bytes where it knows none.
pub uninterp spec fn guessed_essence(extension: Seq<char>) -> Seq<char>;

/// Whether text consists of visible ASCII characters and spaces.
pub open spec fn is_visible(text: Seq<char>) -> bool {
    forall|i: int| 0 <= i < text.len() ==> ' ' <= #[trigger] text[i] <= '~'
}

/// Calls `mime_guess::from_ext` and takes the first media type as it stands. Media types
/// are visible ASCII.
#[verifier::external_body]
fn guess_mime(extension: &str) -> (r: Option<&'static str>)
    ensures
        match r {
            Some(mime) => guessed_mime(extension@) == Some(mime@) && is_visible(mime@),
            None => guessed_mime(extension@) is None,
        },
{
    mime_guess::from_ext(extension).first_raw()
}

/// Calls `mime_guess::from_ext` and takes the type and subtype of the first media type,
/// or `application/octet-stream` where there is none. They are visible ASCII.
#[verifier::external_body]
fn guess_essence(extension: &str) -> (r: String)
    ensures
        r@ == guessed_essence(extension@),
        is_visible(r@),
{
    mime_guess::from_ext(extension).first_or_octet_stream().essence_str().to_owned()
}

/// The text of `mime::APPLICATION_OCTET_STREAM`.
#[verifier::external_body]
fn octet_stream() -> (r: String)
    ensures
        r@ == "application/octet-stream"@,
{
    mime::APPLICATION_OCTET_STREAM.as_ref().to_owned()
}

/// The index of the last dot in a name, if there is one.
pub open spec fn last_dot(name: Seq<char>) -> Option<int>
    decreases name.len(),
{
    if name.len() == 0 {
        None
    } else if name.last() == '.' {
        Some(name.len() - 1)
    } else {
        last_dot(name.drop_last())
    }
}

/// The extension of the name of a file: what follows the last dot, unless there is none
/// or the name starts with it.
pub open spec fn extension(name: Seq<char>) -> Option<Seq<char>> {
    match last_dot(name) {
        Some(at) => if at == 0 {
            None
        } else {
            Some(name.skip(at + 1))
        },
        None => None,
    }
}

/// The media type of a file with this name: the one guessed from its extension, or that
/// of arbitrary bytes.
pub open spec fn mime_of(name: Seq<char>) -> Seq<char> {
    match extension(name) {
        Some(extension) => match guessed_mime(extension) {
            Some(mime) => mime,
            None => "application/octet-stream"@,
        },
        None => "application/octet-stream"@,
    }
}

/// The type and subtype of a file with this name.
pub open spec fn essence_of(name: Seq<char>) -> Seq<char> {
    match extension(name) {
        Some(extension) => guessed_essence(extension),
        None => "application/octet-stream"@,
    }
}

proof fn lemma_last_dot(name: Seq<char>, at: int)
    requires
        0 <= at <= name.len(),
        forall|i: int| at <= i < name.len() ==> name[i] != '.',
        at > 0 ==> name[at - 1] == '.',
    ensures
        last_dot(name) == (if at > 0 {
            Some(at - 1)
        } else {
            None
        }),
    decreases name.len(),
{
    if at < name.len() {
        lemma_last_dot(name.drop_last(), at);
    }
}

/// The extension of the name of a file.
pub fn file_extension(name: &str) -> (r: Option<String>)
    ensures
        match r {
            Some(found) => extension(name@) == Some(found@),
            None => extension(name@) is None,
        },
{
    let chars = chars_of(name);
    let mut at: usize = chars.len();
    while at > 0 && chars[at - 1] != '.'
        invariant
            at <= chars.len(),
            forall|i: int| at <= i < chars.len() ==> chars@[i] != '.',
        decreases at,
    {
        at = at - 1;
    }
    proof {
        lemma_last_dot(chars@, at as int);
    }
    if at <= 1 {
        None
    } else {
        let found = text_between(&chars, at, chars.len());
        assert(chars@.subrange(at as int, chars.len() as int) == chars@.skip(at as int));
        Some(found)
    }
}

/// The media type to serve a file with this name under.
pub fn mime_for(name: &str) -> (r: String)
    ensures
        r@ == mime_of(name@),
        is_visible(r@),
{
    proof {
        reveal_strlit("application/octet-stream");
    }
    match file_extension(name) {
        Some(found) => match guess_mime(found.as_str()) {
            Some(mime) => mime.to_owned(),
            None => octet_stream(),
        },
        None => octet_stream(),
    }
}

/// The type and subtype of a file with this name.
pub fn essence_for(name: &str) -> (r: String)
    ensures
        r@ == essence_of(name@),
        is_visible(r@),
{
    proof {
        reveal_strlit("application/octet-stream");
    }
    match file_extension(name) {
        Some(found) => guess_essence(found.as_str()),
        None => octet_stream(),
    }
}

/// What follows the last dot of a name decides on its media type. A name without a dot, or
/// with none but at its start, has that of arbitrary bytes.
pub proof fn law_last_extension_decides(stem: Seq<char>, ending: Seq<char>)
    requires
        !ending.contains('.'),
    ensures
        stem.len() > 0 ==> mime_of(stem.push('.') + ending) == (match guessed_mime(ending) {
            Some(mime) => mime,
            None => "application/octet-stream"@,
        }),
        stem.len() > 0 ==> essence_of(stem.push('.') + ending) == guessed_essence(ending),
        mime_of(seq!['.'] + ending) == "application/octet-stream"@,
        essence_of(seq!['.'] + ending) == "application/octet-stream"@,
        mime_of(ending) == "application/octet-stream"@,
        essence_of(ending) == "application/octet-stream"@,
{
    let name = stem.push('.') + ending;
    let hidden = seq!['.'] + ending;
    assert forall|i: int| 0 <= i < ending.len() implies ending[i] != '.' by {
        assert(ending.contains(ending[i]));
    }
    assert forall|i: int| stem.len() + 1 <= i < name.len() implies name[i] != '.' by {
        assert(name[i] == ending[i - stem.len() - 1]);
    }
    lemma_last_dot(name, stem.len() as int + 1);
    assert(name.skip(stem.len() as int + 1) =~= ending);
    assert forall|i: int| 1 <= i < hidden.len() implies hidden[i] != '.' by {
        assert(hidden[i] == ending[i - 1]);
    }
    lemma_last_dot(hidden, 1);
    lemma_last_dot(ending, 0);
}

} // verus!

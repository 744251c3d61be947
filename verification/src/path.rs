//! Paths of files, and how the path of a request is turned into one.
use crate::text::{self, trim_start_char};
use std::path::{Component, Path};
use vstd::prelude::*;

verus! {

/// The path of a file: the names that lead to it from the directory of the server.
#[derive(Debug)]
pub struct FilePath {
    pub segments: Vec<String>,
}

impl View for FilePath {
    type V = Seq<Seq<char>>;

    open spec fn view(&self) -> Seq<Seq<char>> {
        text::texts(self.segments@)
    }
}

impl FilePath {
    /// The path of what lies in the directory of the server under this name.
    pub fn top_level(name: &str) -> (path: FilePath)
        ensures
            path@ == seq![name@],
    {
        let mut segments: Vec<String> = Vec::new();
        segments.push(name.to_owned());
        let path = FilePath { segments };
        assert(path@ =~= seq![name@]);
        path
    }
}

/// One step of a path, as an operating system reads it.
#[derive(Debug)]
pub enum PathComponent {
    /// A prefix such as the letter of a drive.
    Prefix,
    /// The root directory.
    RootDir,
    /// The current directory, `.`.
    CurDir,
    /// The parent directory, `..`.
    ParentDir,
    /// The name of a file or of a directory.
    Normal(String),
}

/// One step of a path.
pub enum Part {
    Prefix,
    RootDir,
    CurDir,
    ParentDir,
    Normal(Seq<char>),
}

impl View for PathComponent {
    type V = Part;

    open spec fn view(&self) -> Part {
        match self {
            PathComponent::Prefix => Part::Prefix,
            PathComponent::RootDir => Part::RootDir,
            PathComponent::CurDir => Part::CurDir,
            PathComponent::ParentDir => Part::ParentDir,
            PathComponent::Normal(name) => Part::Normal(name@),
        }
    }
}

/// The steps of a list of components.
pub open spec fn parts_view(components: Seq<PathComponent>) -> Seq<Part> {
    components.map_values(|component: PathComponent| component@)
}

/// A name that leads to something in a directory, and nowhere else.
pub open spec fn is_safe_name(name: Seq<char>) -> bool {
    &&& name.len() > 0
    &&& name != "."@
    &&& name != ".."@
    &&& !name.contains('/')
}

/// Whether text starts like the letter of a drive: with a character and a colon.
pub open spec fn has_drive(path: Seq<char>) -> bool {
    path.len() >= 2 && path[0] != '/' && path[1] == ':'
}

/// Text that every operating system takes apart in the same way: it has no backslash, and
/// does not start with a drive or with two slashes.
pub open spec fn is_portable(path: Seq<char>) -> bool {
    &&& !path.contains('\\')
    &&& !has_drive(path)
    &&& !(path.len() >= 2 && path[0] == '/' && path[1] == '/')
}

/// Text that has no backslash, and in which no piece between slashes starts with a drive.
pub open spec fn is_plain_text(path: Seq<char>) -> bool {
    &&& !path.contains('\\')
    &&& forall|i: int|
        0 <= i < text::pieces(path, '/').len() ==> !has_drive(#[trigger] text::pieces(path, '/')[i])
}

/// The steps that the pieces between slashes stand for. An empty piece is no step, and
/// `.` is one only at the beginning.
pub open spec fn steps(pieces: Seq<Seq<char>>) -> Seq<Part>
    decreases pieces.len(),
{
    if pieces.len() == 0 {
        Seq::empty()
    } else {
        let earlier = steps(pieces.drop_last());
        let piece = pieces.last();
        if piece.len() == 0 {
            earlier
        } else if piece == "."@ {
            if pieces.len() == 1 {
                earlier.push(Part::CurDir)
            } else {
                earlier
            }
        } else if piece == ".."@ {
            earlier.push(Part::ParentDir)
        } else {
            earlier.push(Part::Normal(piece))
        }
    }
}

/// The steps of a path whose text is portable.
pub open spec fn parts_of(path: Seq<char>) -> Seq<Part> {
    let rest = steps(text::pieces(path, '/'));
    if path.len() > 0 && path[0] == '/' {
        seq![Part::RootDir] + rest
    } else {
        rest
    }
}

/// Calls `Path::components`. The steps of portable text are the same everywhere: text has a
/// prefix only on Windows, and only with a backslash, a drive or two slashes. The same goes
/// for all text without a backslash that is not taken to start with a prefix or at the root. Of any text that does not start with a prefix, the steps that are names are
/// safe ones. How other text is taken apart depends on the operating system.
#[verifier::external_body]
fn path_components(path: &str) -> (r: Vec<PathComponent>)
    ensures
        is_portable(path@) ==> parts_view(r@) == parts_of(path@),
        !path@.contains('\\') && !(r@.len() > 0 && (r@[0]@ is Prefix || r@[0]@ is RootDir))
            ==> parts_view(r@) == parts_of(path@),
        !(r@.len() > 0 && r@[0]@ is Prefix) ==> (forall|i: int|
            0 <= i < r@.len() ==> ((#[trigger] r@[i])@ matches Part::Normal(name) ==> is_safe_name(
                name,
            ))),
{
    Path::new(path).components().map(|component| match component {
        Component::Prefix(_) => PathComponent::Prefix,
        Component::RootDir => PathComponent::RootDir,
        Component::CurDir => PathComponent::CurDir,
        Component::ParentDir => PathComponent::ParentDir,
        Component::Normal(name) => PathComponent::Normal(name.to_string_lossy().into_owned()),
    }).collect()
}

/// The value of a hexadecimal digit.
pub open spec fn hex_value(b: u8) -> Option<int> {
    if 48 <= b <= 57 {
        Some(b - 48)
    } else if 65 <= b <= 70 {
        Some(b - 55)
    } else if 97 <= b <= 102 {
        Some(b - 87)
    } else {
        None
    }
}

/// The bytes in which each `%` with two hexadecimal digits after it is replaced by the
/// byte that the digits name.
pub open spec fn percent_decoded(bytes: Seq<u8>) -> Seq<u8>
    decreases bytes.len(),
{
    if bytes.len() == 0 {
        bytes
    } else if bytes[0] == 37 && bytes.len() >= 3 && hex_value(bytes[1]) is Some && hex_value(
        bytes[2],
    ) is Some {
        seq![(16 * hex_value(bytes[1])->0 + hex_value(bytes[2])->0) as u8] + percent_decoded(
            bytes.skip(3),
        )
    } else {
        seq![bytes[0]] + percent_decoded(bytes.skip(1))
    }
}

/// The text that percent-encoded text stands for, if it is valid UTF-8.
pub open spec fn decoded_text(path: Seq<char>) -> Option<Seq<char>> {
    let bytes = percent_decoded(vstd::utf8::encode_utf8(path));
    if vstd::utf8::valid_utf8(bytes) {
        Some(vstd::utf8::decode_utf8(bytes))
    } else {
        None
    }
}

/// Calls `percent_encoding::percent_decode_str` and decodes the result as UTF-8.
#[verifier::external_body]
fn percent_decode(path: &str) -> (r: Option<String>)
    ensures
        match r {
            Some(decoded) => decoded_text(path@) == Some(decoded@),
            None => decoded_text(path@) is None,
        },
{
    percent_encoding::percent_decode_str(path).decode_utf8().ok().map(|text| text.into_owned())
}

/// The names among the steps, unless one of them leaves the directory in which the path
/// starts.
pub open spec fn names(parts: Seq<Part>) -> Option<Seq<Seq<char>>>
    decreases parts.len(),
{
    if parts.len() == 0 {
        Some(Seq::empty())
    } else {
        match names(parts.drop_last()) {
            None => None,
            Some(earlier) => match parts.last() {
                Part::Normal(name) => Some(earlier.push(name)),
                Part::CurDir => Some(earlier),
                _ => None,
            },
        }
    }
}

/// The text that the path of a request stands for.
pub open spec fn requested_text(requested_path: Seq<char>) -> Option<Seq<char>> {
    decoded_text(text::trim_start(requested_path, '/'))
}

/// The names that lead to what a request asks for, where the decoded path is taken apart
/// at its slashes only.
pub open spec fn requested_names(requested_path: Seq<char>) -> Option<Seq<Seq<char>>> {
    match requested_text(requested_path) {
        Some(path) => names(parts_of(path)),
        None => None,
    }
}

/// Whether the decoded path of a request is read in the same way on every system, or there
/// is no such path.
pub open spec fn is_portable_request(requested_path: Seq<char>) -> bool {
    requested_text(requested_path) matches Some(path) ==> is_plain_text(path)
}

/// Whether the decoded path of a request has no backslash.
pub open spec fn has_no_backslash(requested_path: Seq<char>) -> bool {
    requested_text(requested_path) matches Some(path) ==> !path.contains('\\')
}

/// One step of a path, with what is known of its name.
#[derive(Debug)]
pub struct ReadStep {
    pub component: PathComponent,
    /// Whether the name, read as a path on its own, is made of names only. A name such as
    /// `c:` is not on some systems.
    pub plain: bool,
}

/// The steps of a path, each with whether its name is made of names only.
pub open spec fn steps_view(steps: Seq<ReadStep>) -> Seq<(Part, bool)> {
    steps.map_values(|step: ReadStep| (step.component@, step.plain))
}

/// The steps themselves.
pub open spec fn parts_in(steps: Seq<(Part, bool)>) -> Seq<Part> {
    steps.map_values(|step: (Part, bool)| step.0)
}

/// Whether a step can be taken without leaving the directory in which the path starts.
pub open spec fn is_acceptable(step: (Part, bool)) -> bool {
    match step.0 {
        Part::Normal(_) => step.1,
        Part::CurDir => true,
        _ => false,
    }
}

/// The names among steps that are all acceptable.
pub open spec fn accepted(steps: Seq<(Part, bool)>) -> Option<Seq<Seq<char>>>
    decreases steps.len(),
{
    if steps.len() == 0 {
        Some(Seq::empty())
    } else {
        match accepted(steps.drop_last()) {
            None => None,
            Some(earlier) => if !is_acceptable(steps.last()) {
                None
            } else {
                match steps.last().0 {
                    Part::Normal(name) => Some(earlier.push(name)),
                    _ => Some(earlier),
                }
            },
        }
    }
}

/// What holds of the steps that text is read as, whatever the operating system.
pub open spec fn is_reading(path: Seq<char>, steps: Seq<(Part, bool)>) -> bool {
    &&& is_portable(path) ==> parts_in(steps) == parts_of(path)
    &&& !path.contains('\\') && !(steps.len() > 0 && (steps[0].0 is Prefix
        || steps[0].0 is RootDir)) ==> parts_in(steps) == parts_of(path)
    &&& !(steps.len() > 0 && steps[0].0 is Prefix) ==> (forall|i: int|
        0 <= i < steps.len() ==> ((#[trigger] steps[i]).0 matches Part::Normal(name)
            ==> is_safe_name(name)))
    &&& forall|i: int|
        0 <= i < steps.len() ==> ((#[trigger] steps[i]).0 matches Part::Normal(name)
            ==> is_safe_name(name) && is_portable(name) ==> steps[i].1)
}

/// The path that names lead to from a base directory.
pub open spec fn under(base: Seq<Seq<char>>, found: Option<Seq<Seq<char>>>) -> Option<
    Seq<Seq<char>>,
> {
    match found {
        Some(found) => Some(base + found),
        None => None,
    }
}

/// Whether this is the path of the file that a request asks for under a base directory, or
/// the refusal of the request.
///
/// The decoded path is read as steps, and refused exactly where one of them is not
/// acceptable. Text without backslashes and drives has the same steps everywhere; of other
/// text without backslashes it rests on the system only whether it is refused. No file
/// path leads out of the base directory.
pub open spec fn is_file_path(
    base: Seq<Seq<char>>,
    requested_path: Seq<char>,
    r: Option<Seq<Seq<char>>>,
) -> bool {
    &&& match requested_text(requested_path) {
        Some(path) => exists|steps: Seq<(Part, bool)>|
            #[trigger] is_reading(path, steps) && r == under(base, accepted(steps)),
        None => r is None,
    }
    &&& is_portable_request(requested_path) ==> r == under(base, requested_names(requested_path))
    &&& has_no_backslash(requested_path) && r is Some ==> r == under(
        base,
        requested_names(requested_path),
    )
    &&& r matches Some(path) ==> {
        &&& base.is_prefix_of(path)
        &&& forall|i: int| base.len() <= i < path.len() ==> is_safe_name(#[trigger] path[i])
    }
}

/// The path of an optional file.
pub open spec fn optional_path(path: Option<FilePath>) -> Option<Seq<Seq<char>>> {
    match path {
        Some(path) => Some(path@),
        None => None,
    }
}

proof fn lemma_pieces_of_name(name: Seq<char>)
    requires
        !name.contains('/'),
    ensures
        text::pieces(name, '/') == seq![name],
    decreases name.len(),
{
    if name.len() > 0 {
        let rest = name.drop_last();
        assert forall|i: int| 0 <= i < rest.len() implies rest[i] != '/' by {
            assert(name.contains(name[i]));
        }
        assert(!rest.contains('/'));
        lemma_pieces_of_name(rest);
        assert(name.contains(name.last()));
        assert(rest.push(name.last()) == name);
        assert(seq![rest].drop_last() == Seq::<Seq<char>>::empty());
        assert(text::pieces(name, '/') == Seq::<Seq<char>>::empty().push(name));
    } else {
        assert(name == Seq::<char>::empty());
    }
}

proof fn lemma_parts_of_name(name: Seq<char>)
    requires
        is_safe_name(name),
    ensures
        parts_of(name) == seq![Part::Normal(name)],
{
    lemma_pieces_of_name(name);
    let pieces = seq![name];
    assert(pieces.drop_last() == Seq::<Seq<char>>::empty());
    assert(steps(pieces.drop_last()) == Seq::<Part>::empty());
    assert(steps(pieces) =~= seq![Part::Normal(name)]);
    assert(name.contains(name[0]));
}

/// The characters of a piece are characters of the text.
proof fn lemma_piece_chars(path: Seq<char>, separator: char, c: char)
    requires
        !path.contains(c),
    ensures
        forall|i: int|
            0 <= i < text::pieces(path, separator).len() ==> !(
            #[trigger] text::pieces(path, separator)[i]).contains(c),
    decreases path.len(),
{
    if path.len() > 0 {
        let rest = path.drop_last();
        assert forall|i: int| 0 <= i < rest.len() implies rest[i] != c by {
            assert(path.contains(path[i]));
        }
        assert(!rest.contains(c));
        lemma_piece_chars(rest, separator, c);
        text::lemma_pieces_nonempty(rest, separator);
        assert(path.contains(path.last()));
        let before = text::pieces(rest, separator);
        let all = text::pieces(path, separator);
        assert forall|i: int| 0 <= i < all.len() implies !(#[trigger] all[i]).contains(c) by {
            if path.last() != separator && i == all.len() - 1 {
                assert(!before.last().contains(c));
                assert(all[i] == before.last().push(path.last()));
            } else if i < all.len() - 1 {
                assert(all[i] == before[i]);
            }
        }
    }
}

/// No separator stands in a piece.
proof fn lemma_piece_separator(path: Seq<char>, separator: char)
    ensures
        forall|i: int|
            0 <= i < text::pieces(path, separator).len() ==> !(
            #[trigger] text::pieces(path, separator)[i]).contains(separator),
    decreases path.len(),
{
    if path.len() > 0 {
        let rest = path.drop_last();
        lemma_piece_separator(rest, separator);
        text::lemma_pieces_nonempty(rest, separator);
        let before = text::pieces(rest, separator);
        let all = text::pieces(path, separator);
        assert forall|i: int| 0 <= i < all.len() implies !(#[trigger] all[i]).contains(
            separator,
        ) by {
            if path.last() != separator && i == all.len() - 1 {
                assert(!before.last().contains(separator));
                assert(all[i] == before.last().push(path.last()));
            } else if i < all.len() - 1 {
                assert(all[i] == before[i]);
            }
        }
    }
}

proof fn lemma_steps_are_safe(pieces: Seq<Seq<char>>)
    requires
        forall|i: int| 0 <= i < pieces.len() ==> !(#[trigger] pieces[i]).contains('/'),
        forall|i: int| 0 <= i < pieces.len() ==> !(#[trigger] pieces[i]).contains('\\'),
        forall|i: int| 0 <= i < pieces.len() ==> !has_drive(#[trigger] pieces[i]),
    ensures
        forall|i: int|
            0 <= i < steps(pieces).len() ==> ((#[trigger] steps(pieces)[i]) matches Part::Normal(
                name,
            ) ==> is_safe_name(name) && is_portable(name)),
    decreases pieces.len(),
{
    if pieces.len() > 0 {
        let rest = pieces.drop_last();
        assert forall|i: int| 0 <= i < rest.len() implies !(#[trigger] rest[i]).contains('/')
            && !rest[i].contains('\\') && !has_drive(rest[i]) by {
            assert(rest[i] == pieces[i]);
        }
        lemma_steps_are_safe(rest);
        let piece = pieces.last();
        assert(!piece.contains('/') && !piece.contains('\\') && !has_drive(piece));
        assert(piece.len() > 0 ==> piece.contains(piece[0]));
        assert forall|i: int| 0 <= i < steps(pieces).len() implies ((
        #[trigger] steps(pieces)[i]) matches Part::Normal(name) ==> is_safe_name(name)
            && is_portable(name)) by {
            if i < steps(rest).len() {
                assert(steps(pieces)[i] == steps(rest)[i]);
            }
        }
    }
}

/// The names in plain text are safe and portable.
proof fn lemma_plain_names(path: Seq<char>)
    requires
        is_plain_text(path),
    ensures
        forall|i: int|
            0 <= i < parts_of(path).len() ==> ((#[trigger] parts_of(path)[i]) matches Part::Normal(
                name,
            ) ==> is_safe_name(name) && is_portable(name)),
{
    let pieces = text::pieces(path, '/');
    lemma_piece_separator(path, '/');
    lemma_piece_chars(path, '/', '\\');
    lemma_steps_are_safe(pieces);
    if path.len() > 0 && path[0] == '/' {
        assert forall|i: int| 0 <= i < parts_of(path).len() implies ((
        #[trigger] parts_of(path)[i]) matches Part::Normal(name) ==> is_safe_name(name)
            && is_portable(name)) by {
            if i > 0 {
                assert(parts_of(path)[i] == steps(pieces)[i - 1]);
            }
        }
    }
}

/// Whether every component is a name.
pub fn all_normal(components: &Vec<PathComponent>) -> (r: bool)
    ensures
        r == forall|i: int| 0 <= i < components@.len() ==> (#[trigger] components@[i])@ is Normal,
{
    let mut at: usize = 0;
    while at < components.len()
        invariant
            at <= components.len(),
            forall|i: int| 0 <= i < at ==> (#[trigger] components@[i])@ is Normal,
        decreases components.len() - at,
    {
        match &components[at] {
            PathComponent::Normal(_) => {},
            _ => {
                assert(!(components@[at as int]@ is Normal));
                return false;
            },
        }
        at = at + 1;
    }
    true
}

/// Copies strings.
pub(crate) fn copy_texts(strings: &Vec<String>) -> (r: Vec<String>)
    ensures
        text::texts(r@) == text::texts(strings@),
{
    let mut r: Vec<String> = Vec::new();
    let mut at: usize = 0;
    while at < strings.len()
        invariant
            at <= strings.len(),
            r@.len() == at,
            forall|i: int| 0 <= i < at ==> (#[trigger] r@[i])@ == strings@[i]@,
        decreases strings.len() - at,
    {
        r.push(strings[at].clone());
        at = at + 1;
    }
    assert(text::texts(r@) =~= text::texts(strings@));
    r
}

/// Reads a component together with what its name is on its own.
fn read_step(component: &PathComponent) -> (step: ReadStep)
    ensures
        step.component@ == component@,
        component@ matches Part::Normal(name) ==> is_safe_name(name) && is_portable(name)
            ==> step.plain,
{
    match component {
        PathComponent::Prefix => ReadStep { component: PathComponent::Prefix, plain: true },
        PathComponent::RootDir => ReadStep { component: PathComponent::RootDir, plain: true },
        PathComponent::CurDir => ReadStep { component: PathComponent::CurDir, plain: true },
        PathComponent::ParentDir => ReadStep { component: PathComponent::ParentDir, plain: true },
        PathComponent::Normal(name) => {
            let inner = path_components(name.as_str());
            proof {
                if is_safe_name(name@) && is_portable(name@) {
                    lemma_parts_of_name(name@);
                    assert(parts_view(inner@) == seq![Part::Normal(name@)]);
                    assert forall|i: int| 0 <= i < inner@.len() implies (
                    #[trigger] inner@[i])@ is Normal by {
                        assert(parts_view(inner@)[i] == inner@[i]@);
                    }
                }
            }
            let plain = all_normal(&inner);
            ReadStep { component: PathComponent::Normal(name.clone()), plain }
        },
    }
}

/// Reads text as the steps of a path.
fn read_steps(path: &str) -> (r: Vec<ReadStep>)
    ensures
        is_reading(path@, steps_view(r@)),
{
    let components = path_components(path);
    let mut r: Vec<ReadStep> = Vec::new();
    let mut at: usize = 0;
    while at < components.len()
        invariant
            at <= components.len(),
            r@.len() == at,
            forall|i: int| 0 <= i < at ==> (#[trigger] r@[i]).component@ == components@[i]@,
            forall|i: int|
                0 <= i < at ==> ((#[trigger] r@[i]).component@ matches Part::Normal(name)
                    ==> is_safe_name(name) && is_portable(name) ==> r@[i].plain),
        decreases components.len() - at,
    {
        r.push(read_step(&components[at]));
        at = at + 1;
    }
    proof {
        let steps = steps_view(r@);
        assert(parts_in(steps) =~= parts_view(components@));
        assert forall|i: int| 0 <= i < steps.len() implies (#[trigger] steps[i]) == (
            components@[i]@,
            r@[i].plain,
        ) by {
            assert(r@[i].component@ == components@[i]@);
        }
    }
    r
}

/// The path that steps lead to from a base directory. There is none where a step could lead
/// out of it: one to the parent directory, to the root or through a prefix, or a name that
/// is more than a name.
pub fn path_from_steps(base_path: &FilePath, steps: &Vec<ReadStep>) -> (r: Option<FilePath>)
    ensures
        optional_path(r) == under(base_path@, accepted(steps_view(steps@))),
{
    let ghost all = steps_view(steps@);
    let mut path = FilePath { segments: copy_texts(&base_path.segments) };
    let ghost mut found: Seq<Seq<char>> = Seq::empty();
    let mut at: usize = 0;
    assert(all.take(0) == Seq::<(Part, bool)>::empty());
    assert(path@ =~= base_path@ + found);
    while at < steps.len()
        invariant
            at <= steps.len(),
            all == steps_view(steps@),
            accepted(all.take(at as int)) == Some(found),
            path@ == base_path@ + found,
        decreases steps.len() - at,
    {
        proof {
            let seen = all.take(at + 1);
            assert(seen.drop_last() =~= all.take(at as int));
            assert(seen.last() == (steps@[at as int].component@, steps@[at as int].plain));
            if !is_acceptable(seen.last()) {
                lemma_refused(all, at + 1);
            }
        }
        match &steps[at].component {
            PathComponent::Normal(name) => {
                if !steps[at].plain {
                    return None;
                }
                let ghost earlier = path.segments@;
                path.segments.push(name.clone());
                proof {
                    assert(path@ =~= text::texts(earlier).push(name@));
                    found = found.push(name@);
                    assert(path@ =~= base_path@ + found);
                }
            },
            PathComponent::CurDir => {},
            _ => {
                return None;
            },
        }
        at = at + 1;
    }
    assert(all.take(at as int) =~= all);
    Some(path)
}

/// Turns the path of a request into the path of a file under a base directory. The path
/// is refused where it does not decode to text, or where a step of it could lead out of
/// the base directory.
pub fn build_and_validate_path(base_path: &FilePath, requested_path: &str) -> (r: Option<FilePath>)
    ensures
        is_file_path(base_path@, requested_path@, optional_path(r)),
{
    let trimmed = trim_start_char(requested_path, '/');
    let decoded = match percent_decode(trimmed.as_str()) {
        Some(decoded) => decoded,
        None => {
            return None;
        },
    };
    let steps = read_steps(decoded.as_str());
    let r = path_from_steps(base_path, &steps);
    proof {
        let read = steps_view(steps@);
        assert(is_reading(decoded@, read));
        lemma_reading(decoded@, read);
        match accepted(read) {
            Some(found) => {
                let path = base_path@ + found;
                assert(base_path@ =~= path.subrange(0, base_path@.len() as int));
                assert forall|i: int| base_path@.len() <= i < path.len() implies is_safe_name(
                    #[trigger] path[i],
                ) by {
                    assert(path[i] == found[i - base_path@.len()]);
                }
            },
            None => {},
        }
    }
    r
}

/// Once steps are refused, more steps are refused too.
proof fn lemma_refused(steps: Seq<(Part, bool)>, n: int)
    requires
        0 <= n <= steps.len(),
        accepted(steps.take(n)) is None,
    ensures
        accepted(steps) is None,
    decreases steps.len() - n,
{
    if n < steps.len() {
        assert(steps.take(n + 1).drop_last() =~= steps.take(n));
        lemma_refused(steps, n + 1);
    } else {
        assert(steps.take(n) =~= steps);
    }
}

/// Steps that are accepted are those that the text of the path names.
proof fn lemma_accepted(steps: Seq<(Part, bool)>)
    ensures
        accepted(steps) is Some ==> {
            &&& accepted(steps) == names(parts_in(steps))
            &&& forall|i: int| 0 <= i < steps.len() ==> is_acceptable(#[trigger] steps[i])
        },
        (forall|i: int|
            0 <= i < steps.len() ==> ((#[trigger] steps[i]).0 is Normal ==> steps[i].1))
            ==> accepted(steps) == names(parts_in(steps)),
        (forall|i: int|
            0 <= i < steps.len() ==> ((#[trigger] steps[i]).0 matches Part::Normal(name)
                ==> is_safe_name(name))) ==> (accepted(steps) matches Some(found) ==> forall|i: int|
            0 <= i < found.len() ==> is_safe_name(#[trigger] found[i])),
    decreases steps.len(),
{
    if steps.len() > 0 {
        let front = steps.drop_last();
        lemma_accepted(front);
        assert(parts_in(steps).drop_last() =~= parts_in(front));
        assert(parts_in(steps).last() == steps.last().0);
        assert(steps[steps.len() - 1] == steps.last());
        assert forall|i: int| 0 <= i < front.len() implies front[i] == steps[i] by {}
    }
}

/// The first piece starts as the text does.
proof fn lemma_first_piece(path: Seq<char>)
    requires
        path.len() >= 2,
        path[0] != '/',
        path[1] != '/',
    ensures
        text::pieces(path, '/').len() > 0,
        text::pieces(path, '/')[0].len() >= 2,
        text::pieces(path, '/')[0][0] == path[0],
        text::pieces(path, '/')[0][1] == path[1],
    decreases path.len(),
{
    let rest = path.drop_last();
    text::lemma_pieces_nonempty(rest, '/');
    if path.len() > 2 {
        lemma_first_piece(rest);
    } else {
        assert(rest =~= seq![path[0]]);
        lemma_pieces_of_name(path);
    }
}

proof fn lemma_reading(path: Seq<char>, steps: Seq<(Part, bool)>)
    requires
        is_reading(path, steps),
    ensures
        is_plain_text(path) ==> accepted(steps) == names(parts_of(path)),
        !path.contains('\\') && accepted(steps) is Some ==> accepted(steps) == names(
            parts_of(path),
        ),
        accepted(steps) matches Some(found) ==> forall|i: int|
            0 <= i < found.len() ==> is_safe_name(#[trigger] found[i]),
{
    lemma_accepted(steps);
    let parts = parts_in(steps);
    if steps.len() > 0 && (steps[0].0 is Prefix || steps[0].0 is RootDir) {
        assert(!is_acceptable(steps[0]));
        assert(accepted(steps) is None);
    }
    if is_plain_text(path) {
        lemma_plain_names(path);
        if has_drive(path) {
            lemma_first_piece(path);
            assert(has_drive(text::pieces(path, '/')[0]));
        }
        if parts == parts_of(path) {
            assert forall|i: int|
                0 <= i < steps.len() && (#[trigger] steps[i]).0 is Normal implies steps[i].1 by {
                assert(parts[i] == steps[i].0);
            }
        } else {
            assert(path[0] == '/');
            assert(parts_of(path)[0] == Part::RootDir);
            lemma_names(parts_of(path));
        }
    }
}

/// Steps have no names exactly where one of them leaves the directory.
proof fn lemma_names(parts: Seq<Part>)
    ensures
        names(parts) is None <==> exists|i: int|
            0 <= i < parts.len() && !(#[trigger] parts[i] is Normal || parts[i] is CurDir),
    decreases parts.len(),
{
    if parts.len() > 0 {
        let front = parts.drop_last();
        lemma_names(front);
        assert(parts[parts.len() - 1] == parts.last());
        assert forall|i: int| 0 <= i < front.len() implies front[i] == parts[i] by {}
        if names(front) is None {
            let i = choose|i: int|
                0 <= i < front.len() && !(#[trigger] front[i] is Normal || front[i] is CurDir);
            assert(!(parts[i] is Normal || parts[i] is CurDir));
        } else if names(parts) is Some {
            assert forall|i: int| 0 <= i < parts.len() implies (#[trigger] parts[i] is Normal
                || parts[i] is CurDir) by {
                if i < front.len() {
                    assert(front[i] == parts[i]);
                }
            }
        }
    }
}

proof fn lemma_parent_steps(pieces: Seq<Seq<char>>)
    ensures
        pieces.contains(".."@) <==> exists|i: int|
            0 <= i < steps(pieces).len() && !(#[trigger] steps(pieces)[i] is Normal
                || steps(pieces)[i] is CurDir),
    decreases pieces.len(),
{
    reveal_strlit(".");
    reveal_strlit("..");
    if pieces.len() > 0 {
        let front = pieces.drop_last();
        let piece = pieces.last();
        lemma_parent_steps(front);
        let all = steps(pieces);
        let earlier = steps(front);
        assert(pieces[pieces.len() - 1] == piece);
        assert forall|i: int| 0 <= i < front.len() implies front[i] == pieces[i] by {}
        assert forall|i: int| 0 <= i < earlier.len() implies earlier[i] == all[i] by {}
        if pieces.contains(".."@) {
            let at = choose|at: int| 0 <= at < pieces.len() && pieces[at] == ".."@;
            if at < front.len() {
                assert(front[at] == ".."@);
                let i = choose|i: int|
                    0 <= i < earlier.len() && !(#[trigger] earlier[i] is Normal
                        || earlier[i] is CurDir);
                assert(!(all[i] is Normal || all[i] is CurDir));
            } else {
                assert(all[all.len() - 1] == Part::ParentDir);
            }
        }
        if exists|i: int|
            0 <= i < all.len() && !(#[trigger] all[i] is Normal || all[i] is CurDir) {
            let i = choose|i: int|
                0 <= i < all.len() && !(#[trigger] all[i] is Normal || all[i] is CurDir);
            if i < earlier.len() {
                assert(!(earlier[i] is Normal || earlier[i] is CurDir));
                let at = choose|at: int| 0 <= at < front.len() && front[at] == ".."@;
                assert(pieces[at] == ".."@);
            } else {
                assert(piece == ".."@);
            }
        }
    }
}

/// Where text is taken apart at its slashes only, and a name is nothing but a name, as on
/// Unix, a path is refused exactly where it starts at the root or holds a step to the parent
/// directory, and otherwise leads to its names.
pub proof fn law_read_at_slashes(path: Seq<char>, steps: Seq<(Part, bool)>)
    requires
        parts_in(steps) == parts_of(path),
        forall|i: int| 0 <= i < steps.len() ==> ((#[trigger] steps[i]).0 is Normal ==> steps[i].1),
    ensures
        accepted(steps) == names(parts_of(path)),
        accepted(steps) is None <==> (path.len() > 0 && path[0] == '/') || text::pieces(
            path,
            '/',
        ).contains(".."@),
{
    lemma_accepted(steps);
    let pieces = text::pieces(path, '/');
    let rest = self::steps(pieces);
    let parts = parts_of(path);
    lemma_names(parts);
    lemma_parent_steps(pieces);
    if path.len() > 0 && path[0] == '/' {
        assert(parts[0] == Part::RootDir);
    } else {
        assert(parts == rest);
    }
}

/// Steps are refused exactly where one of them is not acceptable.
pub proof fn law_refused_steps(steps: Seq<(Part, bool)>)
    ensures
        accepted(steps) is None <==> exists|i: int|
            0 <= i < steps.len() && !is_acceptable(#[trigger] steps[i]),
    decreases steps.len(),
{
    lemma_accepted(steps);
    if accepted(steps) is None {
        let front = steps.drop_last();
        law_refused_steps(front);
        if accepted(front) is None {
            let i = choose|i: int| 0 <= i < front.len() && !is_acceptable(#[trigger] front[i]);
            assert(!is_acceptable(steps[i]));
        } else {
            assert(!is_acceptable(steps[steps.len() - 1]));
        }
    }
}

proof fn lemma_no_percent_bytes(code: u32)
    requires
        code != 37,
    ensures
        forall|i: int|
            0 <= i < vstd::utf8::encode_scalar(code).len() ==> #[trigger] vstd::utf8::encode_scalar(
                code,
            )[i] != 37,
{
    assert(code <= 0x7F ==> vstd::utf8::leading_byte_width_1(code) == code) by (bit_vector);
    assert(vstd::utf8::leading_byte_width_2(code) >= 128) by (bit_vector);
    assert(vstd::utf8::leading_byte_width_3(code) >= 128) by (bit_vector);
    assert(vstd::utf8::leading_byte_width_4(code) >= 128) by (bit_vector);
    assert(vstd::utf8::last_continuation_byte(code) >= 128) by (bit_vector);
    assert(vstd::utf8::second_last_continuation_byte(code) >= 128) by (bit_vector);
    assert(vstd::utf8::third_last_continuation_byte(code) >= 128) by (bit_vector);
}

proof fn lemma_no_percent_text(text: Seq<char>)
    requires
        !text.contains('%'),
    ensures
        forall|i: int|
            0 <= i < vstd::utf8::encode_utf8(text).len() ==> #[trigger] vstd::utf8::encode_utf8(
                text,
            )[i] != 37,
    decreases text.len(),
{
    if text.len() > 0 {
        let rest = text.drop_first();
        assert forall|i: int| 0 <= i < rest.len() implies rest[i] != '%' by {
            assert(text.contains(text[i + 1]));
        }
        lemma_no_percent_text(rest);
        assert(text.contains(text[0]));
        vstd::utf8::char_u32_cast(text[0], text[0] as u32);
        vstd::utf8::char_is_scalar(text[0]);
        assert(text[0] as u32 != 37);
        lemma_no_percent_bytes(text[0] as u32);
        let first = vstd::utf8::encode_scalar(text[0] as u32);
        let bytes = vstd::utf8::encode_utf8(text);
        assert(bytes == first + vstd::utf8::encode_utf8(rest));
        assert forall|i: int| 0 <= i < bytes.len() implies #[trigger] bytes[i] != 37 by {
            if i < first.len() {
                assert(bytes[i] == first[i]);
            } else {
                assert(bytes[i] == vstd::utf8::encode_utf8(rest)[i - first.len()]);
            }
        }
    }
}

proof fn lemma_nothing_to_decode(bytes: Seq<u8>)
    requires
        forall|i: int| 0 <= i < bytes.len() ==> #[trigger] bytes[i] != 37,
    ensures
        percent_decoded(bytes) == bytes,
    decreases bytes.len(),
{
    if bytes.len() > 0 {
        let rest = bytes.skip(1);
        assert forall|i: int| 0 <= i < rest.len() implies #[trigger] rest[i] != 37 by {
            assert(rest[i] == bytes[i + 1]);
        }
        lemma_nothing_to_decode(rest);
        assert(seq![bytes[0]] + rest =~= bytes);
    }
}

/// Text without percent signs stands for itself.
pub proof fn law_plain_text_is_decoded_to_itself(text: Seq<char>)
    requires
        !text.contains('%'),
    ensures
        decoded_text(text) == Some(text),
{
    lemma_no_percent_text(text);
    lemma_nothing_to_decode(vstd::utf8::encode_utf8(text));
    vstd::utf8::encode_utf8_valid_utf8(text);
    vstd::utf8::encode_utf8_decode_utf8(text);
}

proof fn lemma_steps_of_names(found: Seq<Seq<char>>)
    requires
        forall|i: int| 0 <= i < found.len() ==> is_safe_name(#[trigger] found[i]),
    ensures
        steps(found).len() == found.len(),
        forall|i: int|
            0 <= i < found.len() ==> #[trigger] steps(found)[i] == Part::Normal(found[i]),
        names(steps(found)) == Some(found),
    decreases found.len(),
{
    if found.len() > 0 {
        let front = found.drop_last();
        assert forall|i: int| 0 <= i < front.len() implies is_safe_name(#[trigger] front[i]) by {
            assert(front[i] == found[i]);
        }
        lemma_steps_of_names(front);
        assert(is_safe_name(found[found.len() - 1]));
        assert(steps(found).drop_last() =~= steps(front));
        assert(front.push(found.last()) =~= found);
    } else {
        assert(found =~= Seq::<Seq<char>>::empty());
    }
}

/// A name as it can be spelled in the path of a request without any encoding, and is read on
/// every system.
pub open spec fn is_spellable(name: Seq<char>) -> bool {
    &&& is_safe_name(name)
    &&& !name.contains('%')
    &&& !name.contains('\\')
    &&& !has_drive(name)
}

proof fn lemma_spelled_text(found: Seq<Seq<char>>, slash: bool)
    requires
        forall|i: int| 0 <= i < found.len() ==> is_spellable(#[trigger] found[i]),
    ensures
        ({
            let text = if slash && found.len() > 0 {
                text::joined(found, '/').push('/')
            } else {
                text::joined(found, '/')
            };
            &&& text.len() > 0 ==> text[0] != '/'
            &&& decoded_text(text) == Some(text)
            &&& is_plain_text(text)
            &&& names(parts_of(text)) == Some(found)
        }),
{
    let none = Seq::<char>::empty();
    let all = if slash && found.len() > 0 {
        found.push(none)
    } else if found.len() == 0 {
        seq![none]
    } else {
        found
    };
    let text = if slash && found.len() > 0 {
        text::joined(found, '/').push('/')
    } else {
        text::joined(found, '/')
    };
    if slash && found.len() > 0 {
        assert(all.drop_last() =~= found);
        assert(text::joined(all, '/') =~= text);
    } else if found.len() == 0 {
        assert(text::joined(all, '/') =~= text);
    }
    assert forall|i: int| 0 <= i < all.len() implies !(#[trigger] all[i]).contains('/')
        && !all[i].contains('%') && !all[i].contains('\\') && !has_drive(all[i]) by {
        if i < found.len() {
            assert(all[i] == found[i]);
            assert(is_spellable(found[i]));
        } else {
            assert(all[i] == none);
        }
    }
    text::law_joined_parts_are_the_pieces(all, '/');
    text::lemma_joined_chars(all, '/', '%');
    text::lemma_joined_chars(all, '/', '\\');
    law_plain_text_is_decoded_to_itself(text);
    if found.len() > 0 {
        assert(all[0] == found[0]);
        assert(is_spellable(found[0]));
        text::lemma_joined_start(all, '/');
        assert(found[0].contains(found[0][0]));
    }
    assert forall|i: int| 0 <= i < found.len() implies is_safe_name(#[trigger] found[i]) by {
        assert(is_spellable(found[i]));
    }
    lemma_steps_of_names(found);
    if found.len() == 0 {
        assert(all.drop_last() =~= Seq::<Seq<char>>::empty());
        assert(steps(all) =~= Seq::<Part>::empty());
        assert(found =~= Seq::<Seq<char>>::empty());
    } else if slash {
        assert(steps(all) == steps(found));
    }
}

/// The path of a request that spells names, with a slash before each of them, leads to these
/// names under the base directory, whether or not another slash stands at its end.
pub proof fn law_spelled_names_are_found(
    base: Seq<Seq<char>>,
    found: Seq<Seq<char>>,
    slash: bool,
    r: Option<Seq<Seq<char>>>,
)
    requires
        forall|i: int| 0 <= i < found.len() ==> is_spellable(#[trigger] found[i]),
        is_file_path(
            base,
            if slash {
                (seq!['/'] + text::joined(found, '/')).push('/')
            } else {
                seq!['/'] + text::joined(found, '/')
            },
            r,
        ),
    ensures
        r == Some(base + found),
{
    let text = if slash && found.len() > 0 {
        text::joined(found, '/').push('/')
    } else {
        text::joined(found, '/')
    };
    let requested = if slash {
        (seq!['/'] + text::joined(found, '/')).push('/')
    } else {
        seq!['/'] + text::joined(found, '/')
    };
    lemma_spelled_text(found, slash);
    let n: nat = if slash && found.len() == 0 {
        2
    } else {
        1
    };
    text::law_trimmed_at_the_start(n, text, '/');
    assert(requested =~= Seq::new(n, |i: int| '/') + text);
    assert(requested_text(requested) == Some(text));
}

/// A path with a step to the parent directory is refused, wherever the step stands.
pub proof fn law_parents_are_refused(
    base: Seq<Seq<char>>,
    start: Seq<Seq<char>>,
    end: Seq<Seq<char>>,
    r: Option<Seq<Seq<char>>>,
)
    requires
        forall|i: int| 0 <= i < start.len() ==> is_spellable(#[trigger] start[i]),
        forall|i: int| 0 <= i < end.len() ==> is_spellable(#[trigger] end[i]),
        is_file_path(base, seq!['/'] + text::joined(start.push(".."@) + end, '/'), r),
    ensures
        r is None,
{
    reveal_strlit("..");
    let all = start.push(".."@) + end;
    let text = text::joined(all, '/');
    assert forall|i: int| 0 <= i < all.len() implies !(#[trigger] all[i]).contains('/')
        && !all[i].contains('%') && !all[i].contains('\\') && !has_drive(all[i])
        && all[i].len() > 0 by {
        if i < start.len() {
            assert(all[i] == start[i]);
            assert(is_spellable(start[i]));
        } else if i > start.len() {
            assert(all[i] == end[i - start.len() - 1]);
            assert(is_spellable(end[i - start.len() - 1]));
        } else {
            assert(all[i] == ".."@);
        }
    }
    text::law_joined_parts_are_the_pieces(all, '/');
    text::lemma_joined_chars(all, '/', '%');
    text::lemma_joined_chars(all, '/', '\\');
    law_plain_text_is_decoded_to_itself(text);
    assert(all[0].len() > 0);
    text::lemma_joined_start(all, '/');
    assert(all[0].contains(all[0][0]));
    text::law_trimmed_at_the_start(1, text, '/');
    assert(seq!['/'] + text =~= Seq::new(1, |i: int| '/') + text);
    assert(all[start.len() as int] == ".."@);
    assert(all.contains(".."@));
    lemma_parent_steps(all);
    lemma_names(parts_of(text));
}

/// Whether a piece between slashes leads anywhere.
pub open spec fn leads_on() -> spec_fn(Seq<char>) -> bool {
    |piece: Seq<char>| piece.len() > 0 && piece != "."@
}

proof fn lemma_names_of_pieces(pieces: Seq<Seq<char>>)
    ensures
        names(steps(pieces)) == (if pieces.contains(".."@) {
            None
        } else {
            Some(pieces.filter(leads_on()))
        }),
    decreases pieces.len(),
{
    reveal(Seq::filter);
    reveal_strlit(".");
    reveal_strlit("..");
    assert("."@.len() == 1);
    assert(".."@.len() == 2);
    if pieces.len() > 0 {
        let front = pieces.drop_last();
        let piece = pieces.last();
        lemma_names_of_pieces(front);
        assert(front.push(piece) =~= pieces);
        assert(pieces[pieces.len() - 1] == piece);
        if front.contains(".."@) {
            let i = choose|i: int| 0 <= i < front.len() && front[i] == ".."@;
            assert(pieces[i] == ".."@);
        } else if pieces.contains(".."@) {
            let i = choose|i: int| 0 <= i < pieces.len() && pieces[i] == ".."@;
            if i < front.len() {
                assert(front[i] == ".."@);
            }
            assert(piece == ".."@);
        }
        let all = steps(pieces);
        let earlier = steps(front);
        if all.len() > earlier.len() {
            assert(all.drop_last() =~= earlier);
        }
    } else {
        assert(names(steps(pieces)) == Some(Seq::<Seq<char>>::empty()));
        assert(pieces.filter(leads_on()) =~= Seq::<Seq<char>>::empty());
    }
}

/// The path of a request is decoded once, without the slashes at its start. What it stands
/// for is refused where it is no text, starts with a slash, or has a step to the parent
/// directory. Otherwise it leads to what lies under the base directory by the names between
/// its slashes, in their order; those that are empty or `.` lead nowhere.
pub proof fn law_paths_name_files(
    base: Seq<Seq<char>>,
    slashes: nat,
    path: Seq<char>,
    r: Option<Seq<Seq<char>>>,
)
    requires
        path.len() > 0 ==> path[0] != '/',
        is_file_path(base, Seq::new(slashes, |i: int| '/') + path, r),
    ensures
        requested_text(Seq::new(slashes, |i: int| '/') + path) == decoded_text(path),
        decoded_text(path) is None ==> r is None,
        decoded_text(path) matches Some(decoded) ==> is_plain_text(decoded) ==> {
            let pieces = text::pieces(decoded, '/');
            if decoded.len() > 0 && decoded[0] == '/' || pieces.contains(".."@) {
                r is None
            } else {
                r == Some(base + pieces.filter(leads_on()))
            }
        },
        decoded_text(path) matches Some(decoded) ==> !decoded.contains('\\') && r is Some ==> {
            let pieces = text::pieces(decoded, '/');
            &&& !(decoded.len() > 0 && decoded[0] == '/')
            &&& !pieces.contains(".."@)
            &&& r == Some(base + pieces.filter(leads_on()))
        },
{
    text::law_trimmed_at_the_start(slashes, path, '/');
    match decoded_text(path) {
        Some(decoded) => {
            let pieces = text::pieces(decoded, '/');
            lemma_names_of_pieces(pieces);
            lemma_names(parts_of(decoded));
            if decoded.len() > 0 && decoded[0] == '/' {
                assert(parts_of(decoded)[0] == Part::RootDir);
            }
        },
        None => {},
    }
}

} // verus!

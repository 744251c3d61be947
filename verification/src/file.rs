//! Opening a file or one of its precompressed variants.
use crate::content_encoding::Encoding;
use crate::headers::LastModified;
use crate::path::{copy_texts, FilePath};
use crate::text::{self, concat};
use vstd::prelude::*;

verus! {

/// What is known of a file without reading it.
#[derive(Copy, Clone, Debug, PartialEq, Eq, Structural)]
pub struct FileMeta {
    /// The size in bytes.
    pub len: u64,
    /// When the file was last modified, where that is known.
    pub modified: Option<LastModified>,
}

/// The kinds of errors that are told apart when a file is opened.
#[derive(Copy, Clone, Debug, PartialEq, Eq, Structural)]
pub enum FileErrorKind {
    NotFound,
    PermissionDenied,
    Other,
}

/// Why a file could not be opened.
#[derive(Copy, Clone, Debug, PartialEq, Eq, Structural)]
pub struct FileError {
    pub kind: FileErrorKind,
    /// The error number of a Unix system.
    pub raw_os_error: Option<i32>,
}

impl FileError {
    /// Whether the error means that there is nothing to be served under the path.
    pub open spec fn spec_is_missing(self) -> bool {
        ||| self.kind == FileErrorKind::NotFound
        ||| self.kind == FileErrorKind::PermissionDenied
        ||| self.raw_os_error == Some(20i32)
    }

    /// Whether the error means that there is nothing to be served under the path: no
    /// such file, no permission to read it, or a step of the path that is no directory
    /// (`ENOTDIR`, 20).
    pub fn is_missing(&self) -> (r: bool)
        ensures
            r == self.spec_is_missing(),
    {
        let not_a_directory = match self.raw_os_error {
            Some(number) => number == 20,
            None => false,
        };
        self.kind == FileErrorKind::NotFound || self.kind == FileErrorKind::PermissionDenied
            || not_a_directory
    }
}

/// The path with an extension behind the name of the file.
pub open spec fn extended(path: Seq<Seq<char>>, extension: Seq<char>) -> Seq<Seq<char>> {
    if path.len() == 0 {
        seq![extension]
    } else {
        path.drop_last().push(path.last() + extension)
    }
}

/// The path of the variant of a file in an encoding.
pub open spec fn variant(path: Seq<Seq<char>>, encoding: Option<Encoding>) -> Seq<Seq<char>> {
    match encoding {
        Some(encoding) => match encoding.extension() {
            Some(extension) => extended(path, extension),
            None => path,
        },
        None => path,
    }
}

/// The encoding of an attempt: each negotiated one in turn, then none.
pub open spec fn attempted(encodings: Seq<Encoding>, attempt: int) -> Option<Encoding> {
    if 0 <= attempt < encodings.len() {
        Some(encodings[attempt])
    } else {
        None
    }
}

/// Appends an extension to the name of the file.
pub fn apply_file_extension(path: &mut FilePath, file_extension: &str)
    ensures
        final(path)@ == extended(old(path)@, file_extension@),
{
    let ghost before = path@;
    match path.segments.pop() {
        Some(name) => {
            assert(text::texts(path.segments@) =~= before.drop_last());
            assert(name@ == before.last());
            let ghost directory = path.segments@;
            path.segments.push(concat(name.as_str(), file_extension));
            assert(path@ =~= text::texts(directory).push(name@ + file_extension@));
        },
        None => {
            path.segments.push(file_extension.to_owned());
            assert(path@ =~= seq![file_extension@]);
        },
    }
}

/// The path of the variant of a file in an encoding.
pub fn variant_path(path: &FilePath, encoding: Option<Encoding>) -> (r: FilePath)
    ensures
        r@ == variant(path@, encoding),
{
    let mut r = FilePath { segments: copy_texts(&path.segments) };
    if let Some(encoding) = encoding {
        if let Some(extension) = encoding.to_file_extension() {
            apply_file_extension(&mut r, extension);
        }
    }
    r
}

/// One attempt to open a file.
#[derive(Debug)]
pub struct Attempt {
    /// The file to open.
    pub path: FilePath,
    /// The encoding of what it holds, where it was asked for in one.
    pub encoding: Option<Encoding>,
}

/// The attempt with this number. The negotiated encodings are tried in their order, and
/// after them the file as it is.
pub fn attempt_at(path: &FilePath, negotiated_encodings: &Vec<Encoding>, attempt: usize) -> (r:
    Attempt)
    ensures
        r.encoding == attempted(negotiated_encodings@, attempt as int),
        r.path@ == variant(path@, attempted(negotiated_encodings@, attempt as int)),
{
    let encoding = if attempt < negotiated_encodings.len() {
        Some(negotiated_encodings[attempt])
    } else {
        None
    };
    Attempt { path: variant_path(path, encoding), encoding }
}

/// What follows an attempt to open a file.
#[derive(Debug)]
pub enum Fallback {
    /// The file was opened; it holds content in this encoding.
    Opened { meta: FileMeta, encoding: Option<Encoding> },
    /// The next attempt is to be made.
    Retry { attempt: usize },
    /// There is no file to serve.
    Failed { error: FileError },
}

/// What follows an attempt that ended this way.
pub open spec fn fallback(
    encodings: Seq<Encoding>,
    attempt: usize,
    result: Result<FileMeta, FileError>,
) -> Fallback {
    match result {
        Ok(meta) => Fallback::Opened { meta, encoding: attempted(encodings, attempt as int) },
        Err(error) => if error.kind == FileErrorKind::NotFound && attempt < encodings.len() {
            Fallback::Retry { attempt: (attempt + 1) as usize }
        } else {
            Fallback::Failed { error }
        },
    }
}

/// Decides what follows an attempt to open a file, or to read its metadata. Where there
/// is no file in the encoding that was tried, the next one is tried; any other error
/// ends the search.
pub fn open_file_with_fallback(
    negotiated_encodings: &Vec<Encoding>,
    attempt: usize,
    result: Result<FileMeta, FileError>,
) -> (r: Fallback)
    ensures
        r == fallback(negotiated_encodings@, attempt, result),
{
    match result {
        Ok(meta) => {
            let encoding = if attempt < negotiated_encodings.len() {
                Some(negotiated_encodings[attempt])
            } else {
                None
            };
            Fallback::Opened { meta, encoding }
        },
        Err(error) => {
            if error.kind == FileErrorKind::NotFound && attempt < negotiated_encodings.len() {
                Fallback::Retry { attempt: attempt + 1 }
            } else {
                Fallback::Failed { error }
            }
        },
    }
}

/// How the search for a file ends that starts with an attempt, given what opening each
/// path gives.
pub open spec fn search_from(
    open: spec_fn(Seq<Seq<char>>) -> Result<FileMeta, FileError>,
    path: Seq<Seq<char>>,
    encodings: Seq<Encoding>,
    attempt: usize,
) -> (Option<Encoding>, Result<FileMeta, FileError>)
    decreases encodings.len() - attempt,
    when encodings.len() <= usize::MAX
{
    match fallback(encodings, attempt, open(variant(path, attempted(encodings, attempt as int)))) {
        Fallback::Opened { meta, encoding } => (encoding, Ok(meta)),
        Fallback::Retry { attempt: next } => search_from(open, path, encodings, next),
        Fallback::Failed { error } => (attempted(encodings, attempt as int), Err(error)),
    }
}

/// Whether opening a path fails for want of a file.
pub open spec fn is_absent(result: Result<FileMeta, FileError>) -> bool {
    result matches Err(error) && error.kind == FileErrorKind::NotFound
}

/// Whether a search ends with the attempt of this number: there is no file for any
/// attempt before it, and for it there is one, unless it is the last.
pub open spec fn ends_with(
    open: spec_fn(Seq<Seq<char>>) -> Result<FileMeta, FileError>,
    path: Seq<Seq<char>>,
    encodings: Seq<Encoding>,
    from: int,
    n: int,
) -> bool {
    &&& from <= n <= encodings.len()
    &&& forall|k: int|
        from <= k < n ==> is_absent(open(variant(path, #[trigger] attempted(encodings, k))))
    &&& n < encodings.len() ==> !is_absent(open(variant(path, attempted(encodings, n))))
}

/// The search takes the most preferred encoding for which there is a file: an encoding
/// that stands before the one it ends with has none. Where it ends without an encoding,
/// none of the negotiated encodings has a file, and the file as it is decides.
pub proof fn law_search_order(
    open: spec_fn(Seq<Seq<char>>) -> Result<FileMeta, FileError>,
    path: Seq<Seq<char>>,
    encodings: Seq<Encoding>,
    from: usize,
)
    requires
        from <= encodings.len() <= usize::MAX,
    ensures
        exists|n: int|
            #[trigger] ends_with(open, path, encodings, from as int, n) && search_from(
                open,
                path,
                encodings,
                from,
            ) == (
                attempted(encodings, n),
                open(variant(path, attempted(encodings, n))),
            ),
    decreases encodings.len() - from,
{
    let result = open(variant(path, attempted(encodings, from as int)));
    if from < encodings.len() && is_absent(result) {
        let next = (from + 1) as usize;
        law_search_order(open, path, encodings, next);
        let n = choose|n: int|
            #[trigger] ends_with(open, path, encodings, next as int, n) && search_from(
                open,
                path,
                encodings,
                next,
            ) == (attempted(encodings, n), open(variant(path, attempted(encodings, n))));
        assert(ends_with(open, path, encodings, from as int, n));
    } else {
        assert(ends_with(open, path, encodings, from as int, from as int));
    }
}

/// A file in gzip lies beside the file under its name with `.gz` behind it, one in brotli
/// with `.br` behind it; the file as it is lies under its own name.
pub proof fn law_variants_lie_beside_the_file(directory: Seq<Seq<char>>, name: Seq<char>)
    ensures
        variant(directory.push(name), Some(Encoding::Gzip)) == directory.push(name + ".gz"@),
        variant(directory.push(name), Some(Encoding::Brotli)) == directory.push(name + ".br"@),
        variant(directory.push(name), Some(Encoding::Identity)) == directory.push(name),
        variant(directory.push(name), None) == directory.push(name),
{
    assert(directory.push(name).drop_last() =~= directory);
}

/// The encodings are attempted in their order, each once, and after the last of them the
/// file as it is. An attempt is followed by the next one exactly if there is no such file and
/// the file as it is was not tried yet; any other error is the last word.
pub proof fn law_attempts(
    encodings: Seq<Encoding>,
    attempt: usize,
    meta: FileMeta,
    error: FileError,
)
    requires
        attempt <= encodings.len() <= usize::MAX,
    ensures
        attempt < encodings.len() ==> attempted(encodings, attempt as int) == Some(
            encodings[attempt as int],
        ),
        attempt == encodings.len() ==> attempted(encodings, attempt as int) is None,
        fallback(encodings, attempt, Ok(meta)) == (Fallback::Opened {
            meta,
            encoding: attempted(encodings, attempt as int),
        }),
        error.kind == FileErrorKind::NotFound && attempt < encodings.len() ==> fallback(
            encodings,
            attempt,
            Err(error),
        ) == (Fallback::Retry { attempt: (attempt + 1) as usize }),
        error.kind != FileErrorKind::NotFound || attempt == encodings.len() ==> fallback(
            encodings,
            attempt,
            Err(error),
        ) == (Fallback::Failed { error }),
{
}

/// There is nothing to serve where there is no file, where it may not be read, or where a
/// step of the path is no directory. Any other error is none of these.
pub proof fn law_missing_files(error: FileError)
    ensures
        error.spec_is_missing() <==> (match error.kind {
            FileErrorKind::NotFound => true,
            FileErrorKind::PermissionDenied => true,
            FileErrorKind::Other => error.raw_os_error == Some(20i32),
        } || error.raw_os_error == Some(20i32)),
{
}

} // verus!

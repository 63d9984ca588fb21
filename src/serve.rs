use vstd::prelude::*;

use crate::archive::{last_segment, last_segment_of, ArchiveType};
use crate::sandbox::split_on;
use crate::text::string_of;

verus! {

/// What mime_guess's table gives as the first content type for a file extension.
pub uninterp spec fn mime_of_ext(ext: Seq<char>) -> Option<Seq<char>>;

/// Relies on `mime_guess::from_ext(..).first_raw()`: the first content type that
/// the crate's table lists for `ext`, and none for an empty extension.
#[verifier::external_body]
fn guess_mime(ext: &str) -> (r: Option<String>)
    ensures
        match r {
            Some(m) => mime_of_ext(ext@) == Some(m@),
            None => mime_of_ext(ext@) is None,
        },
        ext@.len() == 0 ==> r is None,
{
    mime_guess::from_ext(ext).first_raw().map(|m| m.to_string())
}

pub open spec fn octet_stream() -> Seq<char> {
    seq![
        'a', 'p', 'p', 'l', 'i', 'c', 'a', 't', 'i', 'o', 'n', '/', 'o', 'c', 't', 'e', 't', '-',
        's', 't', 'r', 'e', 'a', 'm'
    ]
}

/// The extension of a file name: what follows its last dot, or nothing when
/// the name holds no dot.
pub open spec fn extension_of_name(name: Seq<char>) -> Seq<char> {
    let parts = split_on(name, '.');
    if parts.len() >= 2 {
        parts.last()
    } else {
        Seq::empty()
    }
}

/// The content type for a guess: the guess itself, or the generic binary type.
pub open spec fn content_type_from(guess: Option<Seq<char>>) -> Seq<char> {
    match guess {
        Some(m) => m,
        None => octet_stream(),
    }
}

/// The content type of a preview of `path`, from the extension of its last segment.
pub open spec fn preview_type_of(path: Seq<char>) -> Seq<char> {
    content_type_from(mime_of_ext(extension_of_name(last_segment(path))))
}

/// The content type to send for a lookup result.
pub fn content_type_or_default(guess: Option<String>) -> (r: String)
    ensures
        r@ == content_type_from(
            match guess {
                Some(m) => Some(m@),
                None => None,
            },
        ),
{
    match guess {
        Some(m) => m,
        None => {
            proof {
                reveal_strlit("application/octet-stream");
                assert("application/octet-stream"@ =~= octet_stream());
            }
            "application/octet-stream".to_owned()
        },
    }
}

/// The extension of the file name `name`.
pub fn extension(name: &str) -> (r: String)
    ensures
        r@ == extension_of_name(name@),
{
    let parts = split_dots(name);
    if parts.len() >= 2 {
        let last = &parts[parts.len() - 1];
        assert(last@ == parts@.map_values(|v: Vec<char>| v@)[parts.len() - 1]);
        string_of(last)
    } else {
        assert(extension_of_name(name@) == Seq::<char>::empty());
        String::new()
    }
}

fn split_dots(s: &str) -> (r: Vec<Vec<char>>)
    ensures
        r@.map_values(|v: Vec<char>| v@) == split_on(s@, '.'),
{
    crate::sandbox::split_chars(s, '.')
}

/// The content type of a preview of the file at `path`: what the extension
/// table gives for its extension, else `application/octet-stream`.
pub fn preview_content_type(path: &str) -> (r: String)
    ensures
        r@ == preview_type_of(path@),
        extension_of_name(last_segment(path@)).len() == 0 ==> r@ == octet_stream(),
{
    let name = last_segment_of(path);
    let ext = extension(name.as_str());
    content_type_or_default(guess_mime(ext.as_str()))
}

/// What a metadata read of a download target found.
#[derive(Clone, Copy, PartialEq, Eq, Structural, Debug)]
pub enum PathKind {
    File,
    Dir,
    Other,
    Missing,
}

/// How a download request is answered.
#[derive(PartialEq, Eq, Debug)]
pub enum DownloadPlan {
    /// Send the file's bytes.
    FileBytes,
    /// Build an archive of the directory in this format and send it.
    Archive(ArchiveType),
    /// Send this text as the body.
    Text(String),
}

/// Decides how a download of a target of kind `kind` is answered.
pub fn download(kind: PathKind, atype: ArchiveType) -> (r: DownloadPlan)
    ensures
        kind is File ==> r is FileBytes,
        kind is Dir ==> r == DownloadPlan::Archive(atype),
        kind is Other ==> r is Text && r->Text_0@ == seq!['N', 'o', ' ', 'f', 'i', 'l', 'e'],
        kind is Missing ==> r is Text && r->Text_0@ == seq!['E', 'r', 'r', 'o', 'r'],
{
    match kind {
        PathKind::File => DownloadPlan::FileBytes,
        PathKind::Dir => DownloadPlan::Archive(atype),
        PathKind::Other => {
            proof {
                reveal_strlit("No file");
            }
            DownloadPlan::Text("No file".to_owned())
        },
        PathKind::Missing => {
            proof {
                reveal_strlit("Error");
            }
            DownloadPlan::Text("Error".to_owned())
        },
    }
}

/// The bytes of the placeholder body `Error`.
pub open spec fn placeholder_body() -> Seq<u8> {
    seq![69u8, 114u8, 114u8, 111u8, 114u8]
}

/// The body of a download or preview: the bytes read, or the placeholder
/// `Error` when nothing was read.
pub fn get_file_as_byte_vec(buf: Vec<u8>) -> (r: Vec<u8>)
    ensures
        buf@.len() > 0 ==> r@ == buf@,
        buf@.len() == 0 ==> r@ == placeholder_body(),
{
    if buf.len() == 0 {
        let r: Vec<u8> = vec![69u8, 114u8, 114u8, 111u8, 114u8];
        assert(r@ =~= placeholder_body());
        r
    } else {
        buf
    }
}

/// How building an archive failed.
#[derive(Clone, Copy, PartialEq, Eq, Structural, Debug)]
pub enum ArchiveError {
    Io,
    InvalidArchive,
    UnsupportedArchive,
    FileNotFound,
}

impl ArchiveError {
    /// The notice logged for this failure.
    pub fn message(&self) -> (r: &'static str)
        ensures
            r@ == match *self {
                ArchiveError::Io => "I/O Error"@,
                ArchiveError::InvalidArchive => "Invalid Archive"@,
                ArchiveError::UnsupportedArchive => "Unsupported Archive"@,
                ArchiveError::FileNotFound => "File not found"@,
            },
    {
        match self {
            ArchiveError::Io => "I/O Error",
            ArchiveError::InvalidArchive => "Invalid Archive",
            ArchiveError::UnsupportedArchive => "Unsupported Archive",
            ArchiveError::FileNotFound => "File not found",
        }
    }
}

/// The sum of the sizes that could be read.
pub open spec fn size_sum(sizes: Seq<Option<u64>>) -> nat
    decreases sizes.len(),
{
    if sizes.len() == 0 {
        0
    } else {
        size_sum(sizes.drop_last()) + match sizes.last() {
            Some(n) => n as nat,
            None => 0nat,
        }
    }
}

proof fn lemma_size_sum_prefix(sizes: Seq<Option<u64>>, i: int)
    requires
        0 <= i <= sizes.len(),
    ensures
        size_sum(sizes.take(i)) <= size_sum(sizes),
    decreases sizes.len() - i,
{
    if i < sizes.len() {
        lemma_size_sum_prefix(sizes, i + 1);
        assert(sizes.take(i + 1).drop_last() =~= sizes.take(i));
    } else {
        assert(sizes.take(i) =~= sizes);
    }
}

/// The total size of a directory's children, from their metadata reads;
/// `None` is a child whose metadata could not be read and counts for nothing.
pub fn get_size_dir(sizes: &Vec<Option<u64>>) -> (r: u64)
    requires
        size_sum(sizes@) <= u64::MAX,
    ensures
        r == size_sum(sizes@),
{
    let mut total: u64 = 0;
    let mut i: usize = 0;
    while i < sizes.len()
        invariant
            i <= sizes.len(),
            total == size_sum(sizes@.take(i as int)),
            size_sum(sizes@) <= u64::MAX,
        decreases sizes.len() - i,
    {
        proof {
            assert(sizes@.take(i + 1).drop_last() =~= sizes@.take(i as int));
            lemma_size_sum_prefix(sizes@, i + 1);
        }
        match sizes[i] {
            Some(n) => {
                total = total + n;
            },
            None => {},
        }
        i = i + 1;
    }
    assert(sizes@.take(sizes.len() as int) =~= sizes@);
    total
}

} // verus!

use vstd::prelude::*;

use crate::sandbox::{split_on, split_slash};
use crate::text::string_of;

verus! {

/// The format of a downloaded directory.
#[derive(Clone, Copy, PartialEq, Eq, Structural, Debug)]
pub enum ArchiveType {
    Targz,
    Zip,
}

pub open spec fn extension_of(a: ArchiveType) -> Seq<char> {
    match a {
        ArchiveType::Targz => seq!['t', 'a', 'r', '.', 'g', 'z'],
        ArchiveType::Zip => seq!['z', 'i', 'p'],
    }
}

pub open spec fn content_type_of(a: ArchiveType) -> Seq<char> {
    match a {
        ArchiveType::Targz => seq![
            'a', 'p', 'p', 'l', 'i', 'c', 'a', 't', 'i', 'o', 'n', '/', 'x', '-', 't', 'a', 'r'
        ],
        ArchiveType::Zip => seq![
            'a', 'p', 'p', 'l', 'i', 'c', 'a', 't', 'i', 'o', 'n', '/', 'z', 'i', 'p'
        ],
    }
}

impl ArchiveType {
    /// The file extension of an archive of this format, without the dot.
    pub fn extension(&self) -> (r: &'static str)
        ensures
            r@ == extension_of(*self),
    {
        match self {
            ArchiveType::Targz => {
                proof {
                    reveal_strlit("tar.gz");
                    assert("tar.gz"@ =~= extension_of(*self));
                }
                "tar.gz"
            },
            ArchiveType::Zip => {
                proof {
                    reveal_strlit("zip");
                    assert("zip"@ =~= extension_of(*self));
                }
                "zip"
            },
        }
    }

    /// The content type of a response that carries an archive of this format.
    pub fn content_type(&self) -> (r: &'static str)
        ensures
            r@ == content_type_of(*self),
    {
        match self {
            ArchiveType::Targz => {
                proof {
                    reveal_strlit("application/x-tar");
                    assert("application/x-tar"@ =~= content_type_of(*self));
                }
                "application/x-tar"
            },
            ArchiveType::Zip => {
                proof {
                    reveal_strlit("application/zip");
                    assert("application/zip"@ =~= content_type_of(*self));
                }
                "application/zip"
            },
        }
    }
}

/// The length of the random part of a temporary archive's name.
pub const NAME_LEN: usize = 10;

/// The size of the alphabet that names are drawn from.
pub const ALPHABET_LEN: usize = 62;

/// ASCII letters and digits: the alphabet of temporary archive names.
pub open spec fn is_name_char(c: char) -> bool {
    ('a' as u32 <= c as u32 <= 'z' as u32) || ('A' as u32 <= c as u32 <= 'Z' as u32) || (
    '0' as u32 <= c as u32 <= '9' as u32)
}

/// The `i`-th character of the name alphabet: lower case letters, upper case
/// letters, then digits.
pub open spec fn alphabet_code(i: int) -> int {
    if i < 26 {
        97 + i
    } else if i < 52 {
        65 + (i - 26)
    } else {
        48 + (i - 52)
    }
}

pub fn alphabet_char(i: usize) -> (c: char)
    requires
        i < ALPHABET_LEN,
    ensures
        c as u32 == alphabet_code(i as int),
        is_name_char(c),
{
    let code: u8 = if i < 26 {
        97 + i as u8
    } else if i < 52 {
        65 + (i - 26) as u8
    } else {
        48 + (i - 52) as u8
    };
    code as char
}

/// Relies on rand's `Rng::gen_range` on the thread-local generator: a value
/// drawn from `0..bound`, which is not empty.
#[verifier::external_body]
fn draw_below(bound: usize) -> (r: usize)
    requires
        bound > 0,
    ensures
        r < bound,
{
    rand::Rng::gen_range(&mut rand::thread_rng(), 0..bound)
}

/// Names of the random part of a temporary archive.
pub open spec fn is_archive_name(s: Seq<char>) -> bool {
    s.len() == NAME_LEN && forall|i: int| 0 <= i < s.len() ==> is_name_char(#[trigger] s[i])
}

/// The name whose `i`-th character is the alphabet's `draws[i]`-th character.
pub fn name_from_draws(draws: &Vec<usize>) -> (r: String)
    requires
        draws@.len() == NAME_LEN,
        forall|i: int| 0 <= i < draws@.len() ==> draws@[i] < ALPHABET_LEN,
    ensures
        r@.len() == NAME_LEN,
        forall|i: int| 0 <= i < NAME_LEN ==> #[trigger] (r@[i] as u32) == alphabet_code(
            draws@[i] as int,
        ),
        is_archive_name(r@),
{
    let mut s = String::new();
    let mut i: usize = 0;
    while i < draws.len()
        invariant
            i <= draws.len(),
            draws@.len() == NAME_LEN,
            forall|j: int| 0 <= j < draws@.len() ==> draws@[j] < ALPHABET_LEN,
            s@.len() == i,
            forall|j: int| 0 <= j < i ==> #[trigger] (s@[j] as u32) == alphabet_code(draws@[j] as int),
            forall|j: int| 0 <= j < s@.len() ==> is_name_char(#[trigger] s@[j]),
        decreases draws.len() - i,
    {
        let c = alphabet_char(draws[i]);
        s.push(c);
        i = i + 1;
    }
    s
}

/// A name of ten characters drawn uniformly from the name alphabet.
pub fn random_name() -> (r: String)
    ensures
        is_archive_name(r@),
{
    let mut draws: Vec<usize> = Vec::new();
    let mut i: usize = 0;
    while i < NAME_LEN
        invariant
            i <= NAME_LEN,
            draws@.len() == i,
            forall|j: int| 0 <= j < draws@.len() ==> #[trigger] draws@[j] < ALPHABET_LEN,
        decreases NAME_LEN - i,
    {
        draws.push(draw_below(ALPHABET_LEN));
        i = i + 1;
    }
    name_from_draws(&draws)
}

pub open spec fn scratch_prefix() -> Seq<char> {
    seq!['.', '/', 't', 'e', 'm', 'p', '/']
}

/// Where the archive called `name` is written: `./temp/<name>.<ext>`.
pub open spec fn archive_path_of(name: Seq<char>, a: ArchiveType) -> Seq<char> {
    scratch_prefix() + name + seq!['.'] + extension_of(a)
}

/// The path under the scratch directory for the archive called `name`.
pub fn archive_path(name: &str, a: ArchiveType) -> (r: String)
    ensures
        r@ == archive_path_of(name@, a),
{
    let mut s = String::new();
    proof {
        reveal_strlit("./temp/");
        reveal_strlit(".");
    }
    s.push_str("./temp/");
    s.push_str(name);
    s.push_str(".");
    s.push_str(a.extension());
    assert(s@ =~= archive_path_of(name@, a));
    s
}

/// A fresh path under the scratch directory for an archive of format `a`.
pub fn random_archive(a: ArchiveType) -> (r: String)
    ensures
        exists|name: Seq<char>| is_archive_name(name) && r@ == archive_path_of(name, a),
{
    let name = random_name();
    archive_path(name.as_str(), a)
}

/// The last segment of a slash-separated path.
pub open spec fn last_segment(path: Seq<char>) -> Seq<char> {
    split_on(path, '/').last()
}

pub fn last_segment_of(path: &str) -> (r: String)
    ensures
        r@ == last_segment(path@),
{
    let segs = split_slash(path);
    proof {
        crate::sandbox::lemma_split_nonempty(path@, '/');
    }
    let last = &segs[segs.len() - 1];
    assert(last@ == segs@.map_values(|v: Vec<char>| v@)[segs.len() - 1]);
    string_of(last)
}

/// The file name under which a download of `path` in format `a` is offered.
pub open spec fn download_name_of(path: Seq<char>, a: ArchiveType) -> Seq<char> {
    last_segment(path) + seq!['.'] + extension_of(a)
}

pub open spec fn disposition_of(path: Seq<char>, a: ArchiveType) -> Seq<char> {
    seq!['a', 't', 't', 'a', 'c', 'h', 'm', 'e', 'n', 't', ';', ' ', 'f', 'i', 'l', 'e', 'n', 'a', 'm', 'e', '=', '"']
        + download_name_of(path, a) + seq!['"']
}

/// `<last segment>.<ext>`: the name of the archive offered for `path`.
pub fn download_name(path: &str, a: ArchiveType) -> (r: String)
    ensures
        r@ == download_name_of(path@, a),
{
    let mut s = last_segment_of(path);
    proof {
        reveal_strlit(".");
    }
    s.push_str(".");
    s.push_str(a.extension());
    assert(s@ =~= download_name_of(path@, a));
    s
}

/// The headers of an archive download of `path` in format `a`: its content
/// type and its `Content-Disposition`.
pub fn archive_headers(path: &str, a: ArchiveType) -> (r: (String, String))
    ensures
        r.0@ == content_type_of(a),
        r.1@ == disposition_of(path@, a),
{
    (a.content_type().to_owned(), content_disposition(path, a))
}

/// The `Content-Disposition` header value of an archive download of `path`.
pub fn content_disposition(path: &str, a: ArchiveType) -> (r: String)
    ensures
        r@ == disposition_of(path@, a),
{
    let mut s = String::new();
    proof {
        reveal_strlit("attachment; filename=\"");
        reveal_strlit("\"");
    }
    s.push_str("attachment; filename=\"");
    let name = download_name(path, a);
    s.push_str(name.as_str());
    s.push_str("\"");
    assert(s@ =~= disposition_of(path@, a));
    s
}

} // verus!

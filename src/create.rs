//! The rules that creating a torrent applies to its inputs: tracker URLs,
//! path components found by the walk, and the order of the walk.
use vstd::prelude::*;
use crate::bencode::{bytes_lt, lex_lt};
use crate::env::{is_dot, is_dot_dot, DOT};
use crate::error::Error;
use crate::metainfo::{string_from_utf8, FileInfo, Info, Mode};
use vstd::utf8::{decode_utf8, valid_utf8};

verus! {

/// Whether the `url` crate parses `s` as an absolute URL.
pub uninterp spec fn parses_as_url(s: Seq<char>) -> bool;

/// Relies on `url::Url::parse`: whether `s` parses as a URL, which depends
/// on the text alone.
#[verifier::external_body]
fn url_parses(s: &str) -> (r: bool)
    ensures
        r == parses_as_url(s@),
{
    url::Url::parse(s).is_ok()
}

/// Checks the trackers: there must be one, and each must parse as a URL.
/// The first that does not is reported.
pub fn check_announce(urls: &Vec<String>) -> (r: Result<(), Error>)
    ensures
        urls@.len() == 0 ==> r == Err::<(), Error>(Error::AnnounceEmpty),
        urls@.len() > 0 ==> (r is Ok <==> forall|i: int|
            0 <= i < urls@.len() ==> parses_as_url(#[trigger] urls@[i]@)),
        r matches Err(Error::AnnounceUrlParse { text }) ==> exists|i: int|
            0 <= i < urls@.len() && text@ == urls@[i]@ && !parses_as_url(urls@[i]@) && forall|j: int|
                0 <= j < i ==> parses_as_url(#[trigger] urls@[j]@),
        r is Err ==> (r matches Err(Error::AnnounceEmpty) || r matches Err(Error::AnnounceUrlParse { .. })),
{
    if urls.len() == 0 {
        return Err(Error::AnnounceEmpty);
    }
    let mut i: usize = 0;
    while i < urls.len()
        invariant
            i <= urls.len(),
            forall|j: int| 0 <= j < i ==> parses_as_url(#[trigger] urls@[j]@),
        decreases urls.len() - i,
    {
        if !url_parses(urls[i].as_str()) {
            return Err(Error::AnnounceUrlParse { text: urls[i].clone() });
        }
        i = i + 1;
    }
    Ok(())
}

/// An entry whose name starts with `.`; the walk skips it unless told not to.
pub fn is_hidden(name: &Vec<u8>) -> (r: bool)
    ensures
        r == (name@.len() > 0 && name@[0] == DOT),
{
    name.len() > 0 && name[0] == DOT
}

/// A path component as the torrent stores it: UTF-8, and none of ``, `.`,
/// `..`.
pub fn check_component(c: &Vec<u8>) -> (r: Result<String, Error>)
    ensures
        (c@.len() == 0 || is_dot(c@) || is_dot_dot(c@)) ==> r matches Err(
            Error::PathComponent { .. },
        ),
        !(c@.len() == 0 || is_dot(c@) || is_dot_dot(c@)) ==> (r is Ok <==> valid_utf8(c@)),
        r matches Ok(s) ==> s@ == decode_utf8(c@),
        r matches Err(Error::PathComponent { component }) ==> component@ == c@,
        r matches Err(Error::PathDecode { component }) ==> component@ == c@,
        r is Err ==> (r matches Err(Error::PathComponent { .. }) || r matches Err(Error::PathDecode { .. })),
{
    if c.len() == 0 || (c.len() == 1 && c[0] == DOT) || (c.len() == 2 && c[0] == DOT && c[1] == DOT) {
        if c.len() == 1 {
            assert(c@ =~= seq![DOT]);
        } else if c.len() == 2 {
            assert(c@ =~= seq![DOT, DOT]);
        }
        return Err(Error::PathComponent { component: c.clone() });
    }
    assert(!is_dot(c@) && !is_dot_dot(c@)) by {
        if is_dot(c@) {
            assert(c@.len() == 1 && c@[0] == DOT);
        }
        if is_dot_dot(c@) {
            assert(c@.len() == 2 && c@[0] == DOT && c@[1] == DOT);
        }
    }
    match string_from_utf8(c.clone()) {
        Some(s) => Ok(s),
        None => Err(Error::PathDecode { component: c.clone() }),
    }
}

/// The walk's order between two sibling names: byte-wise, case-sensitive.
pub fn walks_before(a: &Vec<u8>, b: &Vec<u8>) -> (r: bool)
    ensures
        r == lex_lt(a@, b@),
{
    bytes_lt(a, b)
}

/// The `info` of a new torrent. A root that is a single file makes a
/// single-file torrent of that file; a directory makes a multi-file torrent
/// whose files keep the walk's order. `private` is stored only when set.
pub fn assemble_info(
    name: String,
    piece_length: u64,
    pieces: Vec<Vec<u8>>,
    files: Vec<FileInfo>,
    root_is_file: bool,
    private: bool,
    source: Option<String>,
) -> (r: Info)
    requires
        root_is_file ==> files@.len() == 1,
    ensures
        r.name == name,
        r.piece_length == piece_length,
        r.pieces == pieces,
        r.source == source,
        r.private == (if private { Some(true) } else { None }),
        root_is_file ==> (r.mode matches Mode::Single { length, md5sum } && length
            == files@[0].length && md5sum == files@[0].md5sum),
        !root_is_file ==> r.mode == (Mode::Multi { files }),
{
    let mode = if root_is_file {
        let f = &files[0];
        Mode::Single { length: f.length, md5sum: f.md5sum }
    } else {
        Mode::Multi { files }
    };
    Info {
        private: if private {
            Some(true)
        } else {
            None
        },
        piece_length,
        name,
        source,
        pieces,
        mode,
    }
}

/// The walk may start at a symbolic link only when links are followed.
pub fn check_root(root: &String, root_is_symlink: bool, follow_symlinks: bool) -> (r: Result<(), Error>)
    ensures
        r is Ok <==> (!root_is_symlink || follow_symlinks),
        r matches Err(e) ==> e == (Error::SymlinkRoot { root: *root }),
{
    if root_is_symlink && !follow_symlinks {
        Err(Error::SymlinkRoot { root: root.clone() })
    } else {
        Ok(())
    }
}

/// The bytes read from a file must number what the walk reported;
/// otherwise the file changed under the hasher, a `Filesystem` error at it.
pub fn check_length(path: &String, expected: u64, observed: u64) -> (r: Result<(), Error>)
    ensures
        r is Ok <==> expected == observed,
        r matches Err(e) ==> (e matches Error::Filesystem { path: p, .. } && p == *path),
{
    if expected == observed {
        Ok(())
    } else {
        Err(Error::Filesystem { path: path.clone(), message: "file length changed while hashing".to_owned() })
    }
}

} // verus!

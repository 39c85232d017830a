//! How errors and verification results are reported to the user: the
//! text of each error, the `error:` line and the `note:` line of a lint.
use vstd::prelude::*;
use vstd::string::StringSliceAdditionalSpecFns;
use vstd::utf8::encode_utf8;
use crate::bencode::{decimal, push_decimal, DecodeErrorKind};
use crate::env::Style;
use crate::error::{small_name, uneven_name, Error, Lint};
use crate::verify::{FileError, PieceMismatch, Status};

verus! {

/// Appends the bytes of `s`.
pub fn push_str(out: &mut Vec<u8>, s: &str)
    ensures
        final(out)@ == old(out)@ + s.spec_bytes(),
{
    let b = s.as_bytes();
    let ghost start = out@;
    let mut i: usize = 0;
    while i < b.len()
        invariant
            i <= b.len(),
            b@ == s.spec_bytes(),
            out@ == start + b@.take(i as int),
        decreases b.len() - i,
    {
        out.push(b[i]);
        i = i + 1;
        assert(out@ =~= start + b@.take(i as int));
    }
    assert(b@.take(i as int) =~= b@);
}

/// The text of an error: what went wrong and with which value. Numbers
/// are written in decimal, paths and names as given.
pub open spec fn error_text(e: Error) -> Seq<u8> {
    match e {
        Error::AnnounceEmpty => "Must provide at least one announce URL".spec_bytes(),
        Error::AnnounceUrlParse { text } => "Failed to parse announce URL: ".spec_bytes() + encode_utf8(text@),
        Error::BencodeDecode { position, kind } => "Failed to decode bencode at byte ".spec_bytes() + decimal(position as nat) + ": ".spec_bytes() + kind_text(kind),
        Error::MetainfoLoad { key, path } => "Failed to deserialize torrent metainfo from `".spec_bytes() + encode_utf8(path@) + "`: invalid or missing key `".spec_bytes() + key@ + "`".spec_bytes(),
        Error::ByteParse { text } => "Failed to parse byte count `".spec_bytes() + encode_utf8(text@) + "`".spec_bytes(),
        Error::ByteSuffix { text, suffix } => "Failed to parse byte count `".spec_bytes() + encode_utf8(text@) + "`, invalid suffix: `".spec_bytes() + encode_utf8(suffix@) + "`".spec_bytes(),
        Error::FilenameDecode { filename } => "Filename was not valid unicode: ".spec_bytes() + encode_utf8(filename@),
        Error::FilenameExtract { path } => "Path had no file name: ".spec_bytes() + encode_utf8(path@),
        Error::Filesystem { path, message } => "I/O error at `".spec_bytes() + encode_utf8(path@) + "`: ".spec_bytes() + encode_utf8(message@),
        Error::OutputExists { path } => "Output path already exists: `".spec_bytes() + encode_utf8(path@) + "`".spec_bytes(),
        Error::Internal { message } => "Internal error, this may indicate a bug: ".spec_bytes() + encode_utf8(message@),
        Error::LintUnknown { text } => "Unknown lint: ".spec_bytes() + encode_utf8(text@),
        Error::GlobParse { text } => "Invalid glob: ".spec_bytes() + encode_utf8(text@),
        Error::PathComponent { component } => "Path contains non-normal component: ".spec_bytes() + component@,
        Error::PathDecode { component } => "Path contains non-unicode component: ".spec_bytes() + component@,
        Error::PathStripEmpty { path, prefix } => "Path `".spec_bytes() + encode_utf8(path@) + "` empty after stripping prefix `".spec_bytes() + encode_utf8(prefix@) + "`".spec_bytes(),
        Error::PathStripPrefix { path, prefix } => "Failed to strip prefix `".spec_bytes() + encode_utf8(prefix@) + "` from path `".spec_bytes() + encode_utf8(path@) + "`".spec_bytes(),
        Error::PieceLengthTooLarge { bytes } => "Piece length `".spec_bytes() + decimal(bytes as nat) + "` too large. The maximum supported piece length is 4294967295.".spec_bytes(),
        Error::PieceLengthUneven { bytes } => "Piece length `".spec_bytes() + decimal(bytes as nat) + "` is not an even power of two".spec_bytes(),
        Error::PieceLengthSmall => "Piece length must be at least 16 KiB".spec_bytes(),
        Error::PieceLengthZero => "Piece length cannot be zero".spec_bytes(),
        Error::SymlinkRoot { root } => "Attempted to create torrent from symlink `".spec_bytes() + encode_utf8(root@) + "`. To override, pass the `--follow-symlinks` flag.".spec_bytes(),
        Error::Unstable { feature } => "Feature `".spec_bytes() + encode_utf8(feature@) + "` cannot be used without passing the `--unstable` flag".spec_bytes(),
        Error::Verify { status } => "Torrent verification failed: ".spec_bytes() + status_text(status),
    }
}


/// Appends raw bytes.
pub fn push_bytes(out: &mut Vec<u8>, b: &Vec<u8>)
    ensures
        final(out)@ == old(out)@ + b@,
{
    let ghost start = out@;
    let mut i: usize = 0;
    while i < b.len()
        invariant
            i <= b.len(),
            out@ == start + b@.take(i as int),
        decreases b.len() - i,
    {
        out.push(b[i]);
        i = i + 1;
        assert(out@ =~= start + b@.take(i as int));
    }
    assert(b@.take(i as int) =~= b@);
}

pub open spec fn kind_text(k: DecodeErrorKind) -> Seq<u8> {
    match k {
        DecodeErrorKind::UnexpectedEnd => "unexpected end of input".spec_bytes(),
        DecodeErrorKind::UnexpectedByte => "unexpected byte".spec_bytes(),
        DecodeErrorKind::BadNumber => "malformed number".spec_bytes(),
        DecodeErrorKind::UnsortedKey => "dictionary keys out of order".spec_bytes(),
        DecodeErrorKind::TrailingData => "trailing data".spec_bytes(),
    }
}

fn push_kind(out: &mut Vec<u8>, k: &DecodeErrorKind)
    ensures
        final(out)@ == old(out)@ + kind_text(*k),
{
    match k {
        DecodeErrorKind::UnexpectedEnd => push_str(out, "unexpected end of input"),
        DecodeErrorKind::UnexpectedByte => push_str(out, "unexpected byte"),
        DecodeErrorKind::BadNumber => push_str(out, "malformed number"),
        DecodeErrorKind::UnsortedKey => push_str(out, "dictionary keys out of order"),
        DecodeErrorKind::TrailingData => push_str(out, "trailing data"),
    }
}

/// One file fault: `file <i> missing`, or `file <i> is <a> bytes, expected <e>`.
pub open spec fn file_error_text(i: usize, e: FileError) -> Seq<u8> {
    match e {
        FileError::Missing => "file ".spec_bytes() + decimal(i as nat) + " missing".spec_bytes(),
        FileError::WrongLength { expected, actual } => "file ".spec_bytes() + decimal(i as nat)
            + " is ".spec_bytes() + decimal(actual as nat) + " bytes, expected ".spec_bytes()
            + decimal(expected as nat),
    }
}

/// One piece fault: `piece <i> (bytes <start>..<end>) differs`.
pub open spec fn piece_text(p: PieceMismatch) -> Seq<u8> {
    "piece ".spec_bytes() + decimal(p.index as nat) + " (bytes ".spec_bytes() + decimal(
        p.start as nat,
    ) + "..".spec_bytes() + decimal(p.end as nat) + ") differs".spec_bytes()
}

/// The items of a status: file faults first, then piece faults.
pub open spec fn status_items(s: Status) -> Seq<Seq<u8>> {
    s.file_errors@.map_values(|x: (usize, FileError)| file_error_text(x.0, x.1))
        + s.bad_pieces@.map_values(|p: PieceMismatch| piece_text(p))
}

/// Items separated by `; `.
pub open spec fn join(items: Seq<Seq<u8>>) -> Seq<u8>
    decreases items.len(),
{
    if items.len() == 0 {
        Seq::empty()
    } else if items.len() == 1 {
        items[0]
    } else {
        join(items.drop_last()) + "; ".spec_bytes() + items.last()
    }
}

pub open spec fn status_text(s: Status) -> Seq<u8> {
    join(status_items(s))
}

fn push_item(
    out: &mut Vec<u8>,
    items: Ghost<Seq<Seq<u8>>>,
    k: Ghost<int>,
    start: Ghost<Seq<u8>>,
    later: bool,
)
    requires
        0 <= k@ < items@.len(),
        later == (k@ > 0),
        old(out)@ == start@ + join(items@.take(k@)),
    ensures
        final(out)@ == start@ + join(items@.take(k@)) + (if k@ > 0 {
            "; ".spec_bytes()
        } else {
            Seq::empty()
        }),
{
    if later {
        push_str(out, "; ");
    } else {
        assert(out@ =~= start@ + join(items@.take(k@)) + Seq::<u8>::empty());
    }
}

fn push_file_error(out: &mut Vec<u8>, i: usize, e: FileError)
    ensures
        final(out)@ == old(out)@ + file_error_text(i, e),
{
    let ghost mid = out@;
    push_str(out, "file ");
    push_decimal(out, i as u128);
    match e {
        FileError::Missing => push_str(out, " missing"),
        FileError::WrongLength { expected, actual } => {
            push_str(out, " is ");
            push_decimal(out, actual as u128);
            push_str(out, " bytes, expected ");
            push_decimal(out, expected as u128);
        },
    }
    assert(out@ =~= mid + file_error_text(i, e));
}

fn push_piece(out: &mut Vec<u8>, p: PieceMismatch)
    ensures
        final(out)@ == old(out)@ + piece_text(p),
{
    let ghost mid = out@;
    push_str(out, "piece ");
    push_decimal(out, p.index as u128);
    push_str(out, " (bytes ");
    push_decimal(out, p.start);
    push_str(out, "..");
    push_decimal(out, p.end);
    push_str(out, ") differs");
    assert(out@ =~= mid + piece_text(p));
}

fn push_status(out: &mut Vec<u8>, s: &Status)
    ensures
        final(out)@ == old(out)@ + status_text(*s),
{
    let ghost items = status_items(*s);
    let ghost start = out@;
    let nf = s.file_errors.len();
    let mut k: usize = 0;
    assert(items.take(0) =~= Seq::<Seq<u8>>::empty());
    assert(out@ =~= start + join(items.take(0)));
    while k < nf
        invariant
            k <= nf == s.file_errors@.len(),
            items == status_items(*s),
            out@ == start + join(items.take(k as int)),
        decreases nf - k,
    {
        push_item(out, Ghost(items), Ghost(k as int), Ghost(start), k > 0);
        let (i, e) = s.file_errors[k];
        push_file_error(out, i, e);
        assert(items[k as int] == file_error_text(i, e));
        k = k + 1;
        assert(items.take(k as int).drop_last() =~= items.take(k - 1));
        assert(out@ =~= start + join(items.take(k as int)));
    }
    let np = s.bad_pieces.len();
    let mut j: usize = 0;
    while j < np
        invariant
            j <= np == s.bad_pieces@.len(),
            nf == s.file_errors@.len(),
            items == status_items(*s),
            items.len() == nf + np,
            out@ == start + join(items.take(nf + j)),
        decreases np - j,
    {
        push_item(out, Ghost(items), Ghost(nf + j), Ghost(start), nf > 0 || j > 0);
        let p = s.bad_pieces[j];
        push_piece(out, p);
        assert(items[nf + j] == piece_text(p));
        j = j + 1;
        assert(items.take(nf + j).drop_last() =~= items.take(nf + j - 1));
        assert(out@ =~= start + join(items.take(nf + j)));
    }
    assert(items.take(nf + np) =~= items);
}

impl Status {
    /// The faults, file faults first, separated by `; ` (see `status_text`).
    pub fn text(&self) -> (r: Vec<u8>)
        ensures
            r@ == status_text(*self),
    {
        let mut out: Vec<u8> = Vec::new();
        push_status(&mut out, self);
        assert(out@ =~= Seq::<u8>::empty() + status_text(*self));
        out
    }
}

/// The bytes of a lint's name.
pub open spec fn lint_name(l: Lint) -> Seq<u8> {
    match l {
        Lint::SmallPieceLength => small_name(),
        Lint::UnevenPieceLength => uneven_name(),
    }
}

/// `error: ` (the word in bold red on a styled stream).
pub open spec fn error_prefix(active: bool) -> Seq<u8> {
    if active {
        "\u{1b}[1;31merror\u{1b}[0m: ".spec_bytes()
    } else {
        "error: ".spec_bytes()
    }
}

/// `note: ` (the word in bold on a styled stream).
pub open spec fn note_prefix(active: bool) -> Seq<u8> {
    if active {
        "\u{1b}[1mnote\u{1b}[0m: ".spec_bytes()
    } else {
        "note: ".spec_bytes()
    }
}

/// The line telling how to allow a lint.
pub open spec fn note_line(active: bool, l: Lint) -> Seq<u8> {
    note_prefix(active) + "This check can be disabled with `--allow ".spec_bytes() + lint_name(l)
        + "`.".spec_bytes() + seq![10u8]
}

/// The exit status of a command that failed.
pub const EXIT_FAILURE: i32 = 1;

/// What a failed command reports on its error stream, and its exit status:
/// `error: <text>`, then for a lint the note on how to allow it.
pub fn error_report(e: &Error, style: Style) -> (r: (Vec<u8>, i32))
    ensures
        r.0@ == error_prefix(style.active) + error_text(*e) + seq![10u8] + match e.lint_spec() {
            Some(l) => note_line(style.active, l),
            None => Seq::empty(),
        },
        r.1 == EXIT_FAILURE,
{
    let mut out: Vec<u8> = Vec::new();
    if style.active {
        push_str(&mut out, "\u{1b}[1;31merror\u{1b}[0m: ");
    } else {
        push_str(&mut out, "error: ");
    }
    let text = e.message();
    push_bytes(&mut out, &text);
    out.push(10u8);
    let ghost first = out@;
    assert(first =~= error_prefix(style.active) + error_text(*e) + seq![10u8]);
    match e.lint() {
        Some(l) => {
            if style.active {
                push_str(&mut out, "\u{1b}[1mnote\u{1b}[0m: ");
            } else {
                push_str(&mut out, "note: ");
            }
            push_str(&mut out, "This check can be disabled with `--allow ");
            let name: Vec<u8> = match l {
                Lint::SmallPieceLength => vec![115u8, 109, 97, 108, 108, 45, 112, 105, 101, 99, 101, 45, 108, 101, 110, 103, 116, 104],
                Lint::UnevenPieceLength => vec![117u8, 110, 101, 118, 101, 110, 45, 112, 105, 101, 99, 101, 45, 108, 101, 110, 103, 116, 104],
            };
            assert(name@ =~= lint_name(l));
            push_bytes(&mut out, &name);
            push_str(&mut out, "`.");
            out.push(10u8);
            assert(out@ =~= first + note_line(style.active, l));
        },
        None => {
            assert(out@ =~= first + Seq::<u8>::empty());
        },
    }
    (out, EXIT_FAILURE)
}

impl Error {
    /// The error's text (see `error_text`).
    pub fn message(&self) -> (r: Vec<u8>)
        ensures
            r@ == error_text(*self),
    {
        let mut out: Vec<u8> = Vec::new();
        match self {
            Error::AnnounceEmpty => {
                push_str(&mut out, "Must provide at least one announce URL");
                assert(out@ =~= "Must provide at least one announce URL".spec_bytes());
            },
            Error::AnnounceUrlParse { text } => {
                push_str(&mut out, "Failed to parse announce URL: ");
                push_str(&mut out, text.as_str());
                assert(out@ =~= "Failed to parse announce URL: ".spec_bytes() + encode_utf8(text@));
            },
            Error::BencodeDecode { position, kind } => {
                push_str(&mut out, "Failed to decode bencode at byte ");
                push_decimal(&mut out, *position as u128);
                push_str(&mut out, ": ");
                push_kind(&mut out, kind);
                assert(out@ =~= "Failed to decode bencode at byte ".spec_bytes() + decimal(*position as nat) + ": ".spec_bytes() + kind_text(*kind));
            },
            Error::MetainfoLoad { key, path } => {
                push_str(&mut out, "Failed to deserialize torrent metainfo from `");
                push_str(&mut out, path.as_str());
                push_str(&mut out, "`: invalid or missing key `");
                push_bytes(&mut out, key);
                push_str(&mut out, "`");
                assert(out@ =~= "Failed to deserialize torrent metainfo from `".spec_bytes() + encode_utf8(path@) + "`: invalid or missing key `".spec_bytes() + key@ + "`".spec_bytes());
            },
            Error::ByteParse { text } => {
                push_str(&mut out, "Failed to parse byte count `");
                push_str(&mut out, text.as_str());
                push_str(&mut out, "`");
                assert(out@ =~= "Failed to parse byte count `".spec_bytes() + encode_utf8(text@) + "`".spec_bytes());
            },
            Error::ByteSuffix { text, suffix } => {
                push_str(&mut out, "Failed to parse byte count `");
                push_str(&mut out, text.as_str());
                push_str(&mut out, "`, invalid suffix: `");
                push_str(&mut out, suffix.as_str());
                push_str(&mut out, "`");
                assert(out@ =~= "Failed to parse byte count `".spec_bytes() + encode_utf8(text@) + "`, invalid suffix: `".spec_bytes() + encode_utf8(suffix@) + "`".spec_bytes());
            },
            Error::FilenameDecode { filename } => {
                push_str(&mut out, "Filename was not valid unicode: ");
                push_str(&mut out, filename.as_str());
                assert(out@ =~= "Filename was not valid unicode: ".spec_bytes() + encode_utf8(filename@));
            },
            Error::FilenameExtract { path } => {
                push_str(&mut out, "Path had no file name: ");
                push_str(&mut out, path.as_str());
                assert(out@ =~= "Path had no file name: ".spec_bytes() + encode_utf8(path@));
            },
            Error::Filesystem { path, message } => {
                push_str(&mut out, "I/O error at `");
                push_str(&mut out, path.as_str());
                push_str(&mut out, "`: ");
                push_str(&mut out, message.as_str());
                assert(out@ =~= "I/O error at `".spec_bytes() + encode_utf8(path@) + "`: ".spec_bytes() + encode_utf8(message@));
            },
            Error::OutputExists { path } => {
                push_str(&mut out, "Output path already exists: `");
                push_str(&mut out, path.as_str());
                push_str(&mut out, "`");
                assert(out@ =~= "Output path already exists: `".spec_bytes() + encode_utf8(path@) + "`".spec_bytes());
            },
            Error::Internal { message } => {
                push_str(&mut out, "Internal error, this may indicate a bug: ");
                push_str(&mut out, message.as_str());
                assert(out@ =~= "Internal error, this may indicate a bug: ".spec_bytes() + encode_utf8(message@));
            },
            Error::LintUnknown { text } => {
                push_str(&mut out, "Unknown lint: ");
                push_str(&mut out, text.as_str());
                assert(out@ =~= "Unknown lint: ".spec_bytes() + encode_utf8(text@));
            },
            Error::GlobParse { text } => {
                push_str(&mut out, "Invalid glob: ");
                push_str(&mut out, text.as_str());
                assert(out@ =~= "Invalid glob: ".spec_bytes() + encode_utf8(text@));
            },
            Error::PathComponent { component } => {
                push_str(&mut out, "Path contains non-normal component: ");
                push_bytes(&mut out, component);
                assert(out@ =~= "Path contains non-normal component: ".spec_bytes() + component@);
            },
            Error::PathDecode { component } => {
                push_str(&mut out, "Path contains non-unicode component: ");
                push_bytes(&mut out, component);
                assert(out@ =~= "Path contains non-unicode component: ".spec_bytes() + component@);
            },
            Error::PathStripEmpty { path, prefix } => {
                push_str(&mut out, "Path `");
                push_str(&mut out, path.as_str());
                push_str(&mut out, "` empty after stripping prefix `");
                push_str(&mut out, prefix.as_str());
                push_str(&mut out, "`");
                assert(out@ =~= "Path `".spec_bytes() + encode_utf8(path@) + "` empty after stripping prefix `".spec_bytes() + encode_utf8(prefix@) + "`".spec_bytes());
            },
            Error::PathStripPrefix { path, prefix } => {
                push_str(&mut out, "Failed to strip prefix `");
                push_str(&mut out, prefix.as_str());
                push_str(&mut out, "` from path `");
                push_str(&mut out, path.as_str());
                push_str(&mut out, "`");
                assert(out@ =~= "Failed to strip prefix `".spec_bytes() + encode_utf8(prefix@) + "` from path `".spec_bytes() + encode_utf8(path@) + "`".spec_bytes());
            },
            Error::PieceLengthTooLarge { bytes } => {
                push_str(&mut out, "Piece length `");
                push_decimal(&mut out, *bytes as u128);
                push_str(&mut out, "` too large. The maximum supported piece length is 4294967295.");
                assert(out@ =~= "Piece length `".spec_bytes() + decimal(*bytes as nat) + "` too large. The maximum supported piece length is 4294967295.".spec_bytes());
            },
            Error::PieceLengthUneven { bytes } => {
                push_str(&mut out, "Piece length `");
                push_decimal(&mut out, *bytes as u128);
                push_str(&mut out, "` is not an even power of two");
                assert(out@ =~= "Piece length `".spec_bytes() + decimal(*bytes as nat) + "` is not an even power of two".spec_bytes());
            },
            Error::PieceLengthSmall => {
                push_str(&mut out, "Piece length must be at least 16 KiB");
                assert(out@ =~= "Piece length must be at least 16 KiB".spec_bytes());
            },
            Error::PieceLengthZero => {
                push_str(&mut out, "Piece length cannot be zero");
                assert(out@ =~= "Piece length cannot be zero".spec_bytes());
            },
            Error::SymlinkRoot { root } => {
                push_str(&mut out, "Attempted to create torrent from symlink `");
                push_str(&mut out, root.as_str());
                push_str(&mut out, "`. To override, pass the `--follow-symlinks` flag.");
                assert(out@ =~= "Attempted to create torrent from symlink `".spec_bytes() + encode_utf8(root@) + "`. To override, pass the `--follow-symlinks` flag.".spec_bytes());
            },
            Error::Unstable { feature } => {
                push_str(&mut out, "Feature `");
                push_str(&mut out, feature.as_str());
                push_str(&mut out, "` cannot be used without passing the `--unstable` flag");
                assert(out@ =~= "Feature `".spec_bytes() + encode_utf8(feature@) + "` cannot be used without passing the `--unstable` flag".spec_bytes());
            },
            Error::Verify { status } => {
                push_str(&mut out, "Torrent verification failed: ");
                push_status(&mut out, status);
                assert(out@ =~= "Torrent verification failed: ".spec_bytes() + status_text(*status));
            },
        }
        out
    }
}

} // verus!

//! The library's error kinds. Each carries the plain values that describe it.
use vstd::prelude::*;
use vstd::string::StringSliceAdditionalSpecFns;
use crate::bencode::DecodeErrorKind;
use crate::verify::Status;

verus! {

/// A check that the user may switch off with `--allow <name>`.
#[derive(Debug, PartialEq, Eq, Clone, Copy, Structural)]
pub enum Lint {
    SmallPieceLength,
    UnevenPieceLength,
}

/// The bytes of `"small-piece-length"`.
pub open spec fn small_name() -> Seq<u8> {
    seq![115u8, 109, 97, 108, 108, 45, 112, 105, 101, 99, 101, 45, 108, 101, 110, 103, 116, 104]
}

/// The bytes of `"uneven-piece-length"`.
pub open spec fn uneven_name() -> Seq<u8> {
    seq![117u8, 110, 101, 118, 101, 110, 45, 112, 105, 101, 99, 101, 45, 108, 101, 110, 103, 116, 104]
}

impl Lint {
    /// The lint with the name `text`; any other name is `LintUnknown`.
    pub fn from_name(text: &str) -> (r: Result<Lint, Error>)
        ensures
            text.spec_bytes() == small_name() ==> r == Ok::<Lint, Error>(Lint::SmallPieceLength),
            text.spec_bytes() == uneven_name() ==> r == Ok::<Lint, Error>(Lint::UnevenPieceLength),
            text.spec_bytes() != small_name() && text.spec_bytes() != uneven_name() ==> r matches Err(
                Error::LintUnknown { .. },
            ),
    {
        let b = crate::metainfo::copy_bytes(text.as_bytes());
        let small: Vec<u8> = vec![115u8, 109, 97, 108, 108, 45, 112, 105, 101, 99, 101, 45, 108, 101, 110, 103, 116, 104];
        let uneven: Vec<u8> = vec![117u8, 110, 101, 118, 101, 110, 45, 112, 105, 101, 99, 101, 45, 108, 101, 110, 103, 116, 104];
        assert(small@ =~= small_name());
        assert(uneven@ =~= uneven_name());
        if crate::verify::bytes_equal(&b, &small) {
            Ok(Lint::SmallPieceLength)
        } else if crate::verify::bytes_equal(&b, &uneven) {
            Ok(Lint::UnevenPieceLength)
        } else {
            Err(Error::LintUnknown { text: text.to_owned() })
        }
    }

    /// The name under which the lint is allowed on the command line.
    pub fn name(&self) -> (r: &'static str)
        ensures
            *self == Lint::SmallPieceLength ==> r@ == "small-piece-length"@,
            *self == Lint::UnevenPieceLength ==> r@ == "uneven-piece-length"@,
    {
        match self {
            Lint::SmallPieceLength => "small-piece-length",
            Lint::UnevenPieceLength => "uneven-piece-length",
        }
    }
}

#[derive(Debug, PartialEq, Eq)]
pub enum Error {
    AnnounceEmpty,
    AnnounceUrlParse { text: String },
    BencodeDecode { position: usize, kind: DecodeErrorKind },
    /// The document decoded but does not describe a torrent: `key` is the
    /// dictionary key that is missing or holds the wrong type, empty where
    /// the document is not the canonical encoding of what it describes.
    /// `path` names the torrent file, where it is known.
    MetainfoLoad { key: Vec<u8>, path: String },
    ByteParse { text: String },
    ByteSuffix { text: String, suffix: String },
    FilenameDecode { filename: String },
    FilenameExtract { path: String },
    Filesystem { path: String, message: String },
    OutputExists { path: String },
    Internal { message: String },
    LintUnknown { text: String },
    GlobParse { text: String },
    PathComponent { component: Vec<u8> },
    PathDecode { component: Vec<u8> },
    PathStripEmpty { path: String, prefix: String },
    PathStripPrefix { path: String, prefix: String },
    PieceLengthTooLarge { bytes: u64 },
    PieceLengthUneven { bytes: u64 },
    PieceLengthSmall,
    PieceLengthZero,
    SymlinkRoot { root: String },
    Unstable { feature: String },
    Verify { status: Status },
}

impl Error {
    pub open spec fn lint_spec(&self) -> Option<Lint> {
        match *self {
            Error::PieceLengthUneven { .. } => Some(Lint::UnevenPieceLength),
            Error::PieceLengthSmall => Some(Lint::SmallPieceLength),
            _ => None,
        }
    }

    /// The lint that this error stands for, if it is one.
    pub fn lint(&self) -> (r: Option<Lint>)
        ensures
            r == self.lint_spec(),
    {
        match self {
            Error::PieceLengthUneven { .. } => Some(Lint::UnevenPieceLength),
            Error::PieceLengthSmall => Some(Lint::SmallPieceLength),
            _ => None,
        }
    }

    /// An invariant violation: a bug.
    pub fn internal(message: String) -> (r: Error)
        ensures
            r == (Error::Internal { message }),
    {
        Error::Internal { message }
    }
}

} // verus!

//! Comparing what is on disk with what a torrent describes.
use vstd::prelude::*;
use crate::hasher::{digests_view, piece_hashes};

verus! {

/// What is wrong with one expected file.
#[derive(Debug, PartialEq, Eq, Clone, Copy, Structural)]
pub enum FileError {
    Missing,
    WrongLength { expected: u64, actual: u64 },
}

/// A piece whose digest on disk differs from the stored one, with its byte
/// range `[start, end)` in the concatenated content.
#[derive(Debug, PartialEq, Eq, Clone, Copy)]
pub struct PieceMismatch {
    pub index: usize,
    pub start: u128,
    pub end: u128,
}

/// The outcome of a verification.
#[derive(Debug, PartialEq, Eq)]
pub struct Status {
    /// Index of each faulty file in the torrent's file list, and its fault.
    pub file_errors: Vec<(usize, FileError)>,
    pub bad_pieces: Vec<PieceMismatch>,
}

/// The fault of file `i`, if any, given the expected length and what was found.
pub open spec fn file_error(expected: u64, actual: Option<u64>) -> Option<FileError> {
    match actual {
        None => Some(FileError::Missing),
        Some(a) => if a == expected {
            None
        } else {
            Some(FileError::WrongLength { expected, actual: a })
        },
    }
}

/// The faults of the first `n` files, in order.
pub open spec fn file_errors(expected: Seq<u64>, actual: Seq<Option<u64>>, n: nat) -> Seq<(usize, FileError)>
    decreases n,
{
    if n == 0 {
        Seq::empty()
    } else {
        let before = file_errors(expected, actual, (n - 1) as nat);
        match file_error(expected[n - 1], actual[n - 1]) {
            Some(e) => before.push(((n - 1) as usize, e)),
            None => before,
        }
    }
}

/// Piece `i` differs: it is missing on one side, or the digests differ.
pub open spec fn piece_differs(stored: Seq<Seq<u8>>, found: Seq<Seq<u8>>, i: int) -> bool {
    i >= stored.len() || i >= found.len() || stored[i] != found[i]
}

/// The indices below `n` of the pieces that differ, ascending.
pub open spec fn bad_pieces(stored: Seq<Seq<u8>>, found: Seq<Seq<u8>>, n: nat) -> Seq<int>
    decreases n,
{
    if n == 0 {
        Seq::empty()
    } else {
        let before = bad_pieces(stored, found, (n - 1) as nat);
        if piece_differs(stored, found, n - 1) {
            before.push(n - 1)
        } else {
            before
        }
    }
}

/// Where piece `i` lies in content of `total` bytes.
pub open spec fn piece_range(i: int, piece_length: int, total: int) -> (int, int) {
    let start = i * piece_length;
    let end = if (i + 1) * piece_length < total {
        (i + 1) * piece_length
    } else if start < total {
        total
    } else {
        start
    };
    (start, end)
}

pub open spec fn max_len(a: nat, b: nat) -> nat {
    if a < b {
        b
    } else {
        a
    }
}

impl Status {
    pub open spec fn spec_is_ok(&self) -> bool {
        self.file_errors@.len() == 0 && self.bad_pieces@.len() == 0
    }

    /// Every file present at its length, and every piece as stored.
    pub fn is_ok(&self) -> (r: bool)
        ensures
            r == self.spec_is_ok(),
    {
        self.file_errors.len() == 0 && self.bad_pieces.len() == 0
    }
}

/// What `compare` reports as a clean result: every file found at its
/// expected length, and the digests recomputed equal to those stored.
pub open spec fn verdict_ok(
    expected: Seq<u64>,
    actual: Seq<Option<u64>>,
    stored: Seq<Seq<u8>>,
    found: Seq<Seq<u8>>,
) -> bool {
    (forall|i: int| 0 <= i < expected.len() ==> #[trigger] actual[i] == Some(expected[i])) && stored
        == found
}

/// Verifying the very content a torrent was made from is clean: the files
/// are found at the lengths recorded, and re-hashing the same bytes with the
/// same piece length gives the stored digests.
pub proof fn lemma_verify_own_content(lengths: Seq<u64>, content: Seq<u8>, piece_length: nat)
    requires
        piece_length > 0,
    ensures
        verdict_ok(
            lengths,
            lengths.map_values(|n: u64| Some(n)),
            piece_hashes(content, piece_length),
            piece_hashes(content, piece_length),
        ),
{
}

/// When the recomputed digests differ from the stored ones at exactly one
/// index, that index is the only bad piece reported.
pub proof fn lemma_one_bad_piece(stored: Seq<Seq<u8>>, found: Seq<Seq<u8>>, i: int, n: nat)
    requires
        stored.len() == found.len(),
        n <= stored.len(),
        0 <= i < stored.len(),
        stored[i] != found[i],
        forall|j: int| 0 <= j < stored.len() && j != i ==> stored[j] == found[j],
    ensures
        bad_pieces(stored, found, n) == (if n > i {
            seq![i]
        } else {
            Seq::empty()
        }),
    decreases n,
{
    if n > 0 {
        lemma_one_bad_piece(stored, found, i, (n - 1) as nat);
        if n - 1 == i {
            assert(Seq::<int>::empty().push(i) =~= seq![i]);
        }
    }
}

/// Compares expected file lengths with those found on disk (`None`: no such
/// file), and the stored piece digests with those recomputed from disk.
pub fn compare(
    expected: &Vec<u64>,
    actual: &Vec<Option<u64>>,
    stored: &Vec<Vec<u8>>,
    found: &Vec<Vec<u8>>,
    piece_length: u64,
    total: u64,
) -> (r: Status)
    requires
        expected.len() == actual.len(),
    ensures
        r.file_errors@ == file_errors(expected@, actual@, expected@.len()),
        r.bad_pieces@.map_values(|p: PieceMismatch| p.index as int) == bad_pieces(
            digests_view(stored@),
            digests_view(found@),
            max_len(stored@.len(), found@.len()),
        ),
        forall|j: int|
            0 <= j < r.bad_pieces@.len() ==> ((#[trigger] r.bad_pieces@[j]).start as int,
            r.bad_pieces@[j].end as int) == piece_range(
                r.bad_pieces@[j].index as int,
                piece_length as int,
                total as int,
            ),
        r.spec_is_ok() == verdict_ok(expected@, actual@, digests_view(stored@), digests_view(found@)),
{
    let mut errs: Vec<(usize, FileError)> = Vec::new();
    let mut k: usize = 0;
    while k < expected.len()
        invariant
            k <= expected.len() == actual.len(),
            errs@ == file_errors(expected@, actual@, k as nat),
            errs@.len() == 0 <==> forall|i: int| 0 <= i < k ==> #[trigger] actual@[i] == Some(expected@[i]),
        decreases expected.len() - k,
    {
        match actual[k] {
            None => errs.push((k, FileError::Missing)),
            Some(a) => {
                if a != expected[k] {
                    errs.push((k, FileError::WrongLength { expected: expected[k], actual: a }));
                }
            },
        }
        k = k + 1;
        assert(errs@.len() == 0 ==> forall|i: int| 0 <= i < k ==> #[trigger] actual@[i] == Some(expected@[i]));
    }
    let ghost s = digests_view(stored@);
    let ghost f = digests_view(found@);
    let n: usize = if stored.len() < found.len() {
        found.len()
    } else {
        stored.len()
    };
    let mut bad: Vec<PieceMismatch> = Vec::new();
    let mut i: usize = 0;
    while i < n
        invariant
            i <= n,
            n == max_len(stored@.len(), found@.len()),
            s == digests_view(stored@),
            f == digests_view(found@),
            bad@.map_values(|p: PieceMismatch| p.index as int) == bad_pieces(s, f, i as nat),
            forall|j: int|
                0 <= j < bad@.len() ==> ((#[trigger] bad@[j]).start as int, bad@[j].end as int)
                    == piece_range(bad@[j].index as int, piece_length as int, total as int),
            bad@.len() == 0 <==> forall|j: int| 0 <= j < i ==> !#[trigger] piece_differs(s, f, j),
        decreases n - i,
    {
        let differs = if i >= stored.len() || i >= found.len() {
            true
        } else {
            !bytes_equal(&stored[i], &found[i])
        };
        assert(differs == piece_differs(s, f, i as int));
        let ghost before = bad@;
        if differs {
            assert((i as u128) * (piece_length as u128) <= 0xffff_ffff_ffff_ffffu128
                * 0xffff_ffff_ffff_ffffu128) by (nonlinear_arith)
                requires
                    i as u128 <= 0xffff_ffff_ffff_ffffu128,
                    piece_length as u128 <= 0xffff_ffff_ffff_ffffu128,
            ;
            let start: u128 = i as u128 * piece_length as u128;
            let next: u128 = start + piece_length as u128;
            let end: u128 = if next < total as u128 {
                next
            } else if start < total as u128 {
                total as u128
            } else {
                start
            };
            assert((i as int + 1) * (piece_length as int) == (i as int) * (piece_length as int)
                + piece_length as int) by (nonlinear_arith);
            assert((start as int, end as int) == piece_range(i as int, piece_length as int, total as int));
            bad.push(PieceMismatch { index: i, start, end });
            assert(bad@.map_values(|p: PieceMismatch| p.index as int) =~= before.map_values(
                |p: PieceMismatch| p.index as int,
            ).push(i as int));
        }
        i = i + 1;
        assert(bad@.len() == 0 ==> forall|j: int| 0 <= j < i ==> !#[trigger] piece_differs(s, f, j));
    }
    proof {
        if bad@.len() == 0 {
            assert(s.len() == f.len()) by {
                if s.len() < f.len() {
                    assert(!piece_differs(s, f, s.len() as int));
                } else if f.len() < s.len() {
                    assert(!piece_differs(s, f, f.len() as int));
                }
            }
            assert forall|j: int| 0 <= j < s.len() implies s[j] == f[j] by {
                assert(!piece_differs(s, f, j));
            }
            assert(s =~= f);
        }
        if s == f {
            assert forall|j: int| 0 <= j < i implies !#[trigger] piece_differs(s, f, j) by {
            }
        }
    }
    Status { file_errors: errs, bad_pieces: bad }
}

/// Byte-for-byte equality.
pub fn bytes_equal(a: &Vec<u8>, b: &Vec<u8>) -> (r: bool)
    ensures
        r == (a@ == b@),
{
    if a.len() != b.len() {
        return false;
    }
    let mut i: usize = 0;
    while i < a.len()
        invariant
            i <= a.len() == b.len(),
            forall|j: int| 0 <= j < i ==> a@[j] == b@[j],
        decreases a.len() - i,
    {
        if a[i] != b[i] {
            return false;
        }
        i = i + 1;
    }
    assert(a@ =~= b@);
    true
}

} // verus!

//! Piece-length policy: the checks on a chosen length, and the automatic
//! choice when none is given.
use vstd::prelude::*;
use crate::error::{Error, Lint};
use crate::hasher::piece_count;

verus! {

/// The smallest piece length that passes the lint: 16 KiB.
pub const MIN_PIECE_LENGTH: u64 = 16384;

/// The largest automatic piece length: 16 MiB.
pub const MAX_AUTO_PIECE_LENGTH: u64 = 16777216;

/// The automatic choice stops doubling once there are at most this many pieces.
pub const TARGET_PIECE_COUNT: u64 = 2048;

/// The largest piece length a torrent can hold: it must fit in 32 bits.
pub const MAX_PIECE_LENGTH: u64 = 4294967295;

pub open spec fn is_pow2(n: nat) -> bool
    decreases n,
{
    if n == 0 {
        false
    } else if n == 1 {
        true
    } else {
        n % 2 == 0 && is_pow2(n / 2)
    }
}

pub fn is_power_of_two(n: u64) -> (r: bool)
    ensures
        r == is_pow2(n as nat),
{
    if n == 0 {
        return false;
    }
    let mut m: u64 = n;
    while m > 1 && m % 2 == 0
        invariant
            m > 0,
            is_pow2(n as nat) == is_pow2(m as nat),
        decreases m,
    {
        m = m / 2;
    }
    m == 1
}

/// Checks a piece length: zero always fails; then, unless allowed, one that
/// is not a power of two, then one below 16 KiB; last, one above 32 bits.
pub fn check_piece_length(bytes: u64, allow: &Vec<Lint>) -> (r: Result<(), Error>)
    ensures
        r == (if bytes == 0 {
            Err(Error::PieceLengthZero)
        } else if !allow@.contains(Lint::UnevenPieceLength) && !is_pow2(bytes as nat) {
            Err(Error::PieceLengthUneven { bytes })
        } else if !allow@.contains(Lint::SmallPieceLength) && bytes < MIN_PIECE_LENGTH {
            Err(Error::PieceLengthSmall)
        } else if bytes > MAX_PIECE_LENGTH {
            Err(Error::PieceLengthTooLarge { bytes })
        } else {
            Ok(())
        }),
{
    if bytes == 0 {
        return Err(Error::PieceLengthZero);
    }
    if !contains_lint(allow, Lint::UnevenPieceLength) && !is_power_of_two(bytes) {
        return Err(Error::PieceLengthUneven { bytes });
    }
    if !contains_lint(allow, Lint::SmallPieceLength) && bytes < MIN_PIECE_LENGTH {
        return Err(Error::PieceLengthSmall);
    }
    if bytes > MAX_PIECE_LENGTH {
        return Err(Error::PieceLengthTooLarge { bytes });
    }
    Ok(())
}

fn contains_lint(allow: &Vec<Lint>, lint: Lint) -> (r: bool)
    ensures
        r == allow@.contains(lint),
{
    let mut i: usize = 0;
    while i < allow.len()
        invariant
            i <= allow.len(),
            forall|j: int| 0 <= j < i ==> allow@[j] != lint,
        decreases allow.len() - i,
    {
        if allow[i] == lint {
            return true;
        }
        i = i + 1;
    }
    false
}

/// The automatic piece length for `total` bytes of content: the smallest
/// power of two from 16 KiB up to 16 MiB that gives at most the target
/// number of pieces, or 16 MiB if none does.
pub fn auto_piece_length(total: u64) -> (r: u64)
    ensures
        is_pow2(r as nat),
        MIN_PIECE_LENGTH <= r <= MAX_AUTO_PIECE_LENGTH,
        piece_count(total as nat, r as nat) <= TARGET_PIECE_COUNT || r == MAX_AUTO_PIECE_LENGTH,
        r == MIN_PIECE_LENGTH || piece_count(total as nat, (r / 2) as nat) > TARGET_PIECE_COUNT,
{
    let mut l: u64 = MIN_PIECE_LENGTH;
    assert(is_pow2(16384)) by {
        reveal_with_fuel(is_pow2, 16);
    }
    while l < MAX_AUTO_PIECE_LENGTH && count_pieces(total, l) > TARGET_PIECE_COUNT
        invariant
            is_pow2(l as nat),
            MIN_PIECE_LENGTH <= l <= MAX_AUTO_PIECE_LENGTH,
            l == MIN_PIECE_LENGTH || piece_count(total as nat, (l / 2) as nat) > TARGET_PIECE_COUNT,
        decreases MAX_AUTO_PIECE_LENGTH - l,
    {
        let next: u64 = l * 2;
        assert((next as nat) % 2 == 0 && (next as nat) / 2 == l as nat);
        assert(next <= MAX_AUTO_PIECE_LENGTH) by {
            reveal_with_fuel(is_pow2, 26);
            lemma_pow2_gap(l as nat, MAX_AUTO_PIECE_LENGTH as nat);
        }
        l = next;
    }
    l
}

/// Of two powers of two, the smaller is at most half the larger.
proof fn lemma_pow2_gap(l: nat, m: nat)
    requires
        is_pow2(l),
        is_pow2(m),
        l < m,
    ensures
        2 * l <= m,
    decreases l,
{
    if l > 1 {
        lemma_pow2_gap(l / 2, m / 2);
    }
}

/// `ceil(total / piece_length)`.
pub fn count_pieces(total: u64, piece_length: u64) -> (r: u64)
    requires
        piece_length > 0,
    ensures
        r == piece_count(total as nat, piece_length as nat),
{
    let q = total / piece_length;
    if total % piece_length == 0 {
        proof {
            vstd::arithmetic::div_mod::lemma_fundamental_div_mod(total as int, piece_length as int);
            assert((q as int) * (piece_length as int) == (piece_length as int) * (q as int)) by (nonlinear_arith);
            vstd::arithmetic::div_mod::lemma_fundamental_div_mod_converse_div(
                total + piece_length - 1,
                piece_length as int,
                q as int,
                piece_length - 1,
            );
        }
        q
    } else {
        proof {
            vstd::arithmetic::div_mod::lemma_fundamental_div_mod(total as int, piece_length as int);
            assert((q + 1) * (piece_length as int) == (piece_length as int) * (q as int) + piece_length) by (nonlinear_arith);
            vstd::arithmetic::div_mod::lemma_fundamental_div_mod_converse_div(
                total + piece_length - 1,
                piece_length as int,
                q + 1,
                (total % piece_length) - 1,
            );
            assert((q as int) <= (piece_length as int) * (q as int)) by (nonlinear_arith)
                requires
                    piece_length >= 1,
            ;
        }
        q + 1
    }
}

} // verus!

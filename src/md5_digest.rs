//! Per-file MD5 checksums, bencoded as 32 lowercase hex digits.
use vstd::prelude::*;
use vstd::string::StringSliceAdditionalSpecFns;

verus! {

/// What MD5 gives for `data`.
pub uninterp spec fn md5_of(data: Seq<u8>) -> Seq<u8>;

/// Relies on `md5::compute`: the 16-byte MD5 digest of `data`.
#[verifier::external_body]
fn md5_compute(data: &[u8]) -> (r: [u8; 16])
    ensures
        r@ == md5_of(data@),
{
    md5::compute(data).0
}

pub open spec fn is_hex_digit(c: u8) -> bool {
    (48 <= c <= 57) || (97 <= c <= 102) || (65 <= c <= 70)
}

/// The value of one hex digit, either case.
pub open spec fn hex_value(c: u8) -> int {
    if 48 <= c <= 57 {
        c - 48
    } else if 97 <= c <= 102 {
        c - 87
    } else {
        c - 55
    }
}

/// The lowercase hex digit for a value below 16.
pub open spec fn hex_char(n: int) -> u8 {
    if n < 10 {
        (n + 48) as u8
    } else {
        (n + 87) as u8
    }
}

/// Two lowercase hex digits for each byte, high half first.
pub open spec fn lower_hex(b: Seq<u8>) -> Seq<u8> {
    Seq::new(
        2 * b.len(),
        |i: int|
            if i % 2 == 0 {
                hex_char(b[i / 2] as int / 16)
            } else {
                hex_char(b[i / 2] as int % 16)
            },
    )
}

/// A hex digit reads back as the value it was written for.
proof fn lemma_hex_char(n: int)
    requires
        0 <= n < 16,
    ensures
        is_hex_digit(hex_char(n)),
        hex_value(hex_char(n)) == n,
{
}

#[derive(Debug, PartialEq, Eq, Clone, Copy)]
pub struct Md5Digest {
    pub bytes: [u8; 16],
}

fn hex_digit_value(c: u8) -> (r: u8)
    requires
        is_hex_digit(c),
    ensures
        r == hex_value(c),
        r < 16,
{
    if 48 <= c && c <= 57 {
        c - 48
    } else if 97 <= c && c <= 102 {
        c - 87
    } else {
        c - 55
    }
}

fn is_hex(c: u8) -> (r: bool)
    ensures
        r == is_hex_digit(c),
{
    (48 <= c && c <= 57) || (97 <= c && c <= 102) || (65 <= c && c <= 70)
}

fn hex_digit_char(n: u8) -> (r: u8)
    requires
        n < 16,
    ensures
        r == hex_char(n as int),
{
    if n < 10 {
        n + 48
    } else {
        n + 87
    }
}

impl Md5Digest {
    /// Reads 32 hex digits, two to a byte, high half first.
    pub fn from_hex(hex: &str) -> (r: Md5Digest)
        requires
            hex.spec_bytes().len() == 32,
            forall|i: int| 0 <= i < 32 ==> is_hex_digit(#[trigger] hex.spec_bytes()[i]),
        ensures
            forall|n: int|
                0 <= n < 16 ==> #[trigger] r.bytes@[n] == hex_value(hex.spec_bytes()[2 * n]) * 16
                    + hex_value(hex.spec_bytes()[2 * n + 1]),
    {
        let b = hex.as_bytes();
        let mut bytes: [u8; 16] = [0; 16];
        let mut n: usize = 0;
        while n < 16
            invariant
                n <= 16,
                b@ == hex.spec_bytes(),
                b@.len() == 32,
                forall|i: int| 0 <= i < 32 ==> is_hex_digit(#[trigger] b@[i]),
                forall|k: int|
                    0 <= k < n ==> #[trigger] bytes@[k] == hex_value(b@[2 * k]) * 16 + hex_value(
                        b@[2 * k + 1],
                    ),
            decreases 16 - n,
        {
            let i: usize = n * 2;
            let hi = hex_digit_value(b[i]);
            let lo = hex_digit_value(b[i + 1]);
            bytes[n] = hi * 16 + lo;
            n = n + 1;
        }
        Md5Digest { bytes }
    }

    /// Reads the 32 lowercase hex digits that stand for a digest in a
    /// torrent; `None` for anything else.
    pub fn from_lower_hex(b: &Vec<u8>) -> (r: Option<Md5Digest>)
        ensures
            r matches Some(d) ==> lower_hex(d.bytes@) == b@,
            (exists|d: Md5Digest| #[trigger] lower_hex(d.bytes@) == b@) ==> r is Some,
    {
        let ghost found = exists|d: Md5Digest| #[trigger] lower_hex(d.bytes@) == b@;
        let ghost x: Seq<u8> = if found {
            (choose|d: Md5Digest| #[trigger] lower_hex(d.bytes@) == b@).bytes@
        } else {
            Seq::empty()
        };
        if b.len() != 32 {
            return None;
        }
        let mut bytes: [u8; 16] = [0; 16];
        let mut n: usize = 0;
        while n < 16
            invariant
                n <= 16,
                b@.len() == 32,
                found ==> x.len() == 16 && lower_hex(x) == b@,
                found ==> forall|k: int| 0 <= k < n ==> #[trigger] bytes@[k] == x[k],
            decreases 16 - n,
        {
            let (hi, lo) = (b[2 * n], b[2 * n + 1]);
            proof {
                if found {
                    lemma_hex_char(x[n as int] as int / 16);
                    lemma_hex_char(x[n as int] as int % 16);
                    assert(hi == lower_hex(x)[2 * n as int]);
                    assert(lo == lower_hex(x)[2 * n + 1]);
                }
            }
            if !is_hex(hi) || !is_hex(lo) {
                return None;
            }
            bytes[n] = hex_digit_value(hi) * 16 + hex_digit_value(lo);
            n = n + 1;
        }
        let d = Md5Digest { bytes };
        proof {
            if found {
                assert(d.bytes@ =~= x);
            }
        }
        if crate::verify::bytes_equal(&d.to_hex(), b) {
            Some(d)
        } else {
            None
        }
    }

    /// The MD5 digest of `data`.
    pub fn from_data(data: &[u8]) -> (r: Md5Digest)
        ensures
            r.bytes@ == md5_of(data@),
    {
        Md5Digest { bytes: md5_compute(data) }
    }

    /// The 32 lowercase hex digits that stand for the digest in a torrent.
    pub fn to_hex(&self) -> (r: Vec<u8>)
        ensures
            r@ == lower_hex(self.bytes@),
    {
        let mut out: Vec<u8> = Vec::new();
        let mut n: usize = 0;
        while n < 16
            invariant
                n <= 16,
                out@ == lower_hex(self.bytes@).take(2 * n as int),
            decreases 16 - n,
        {
            let byte = self.bytes[n];
            out.push(hex_digit_char(byte / 16));
            out.push(hex_digit_char(byte % 16));
            n = n + 1;
            assert(out@ =~= lower_hex(self.bytes@).take(2 * n as int));
        }
        assert(lower_hex(self.bytes@).take(32) =~= lower_hex(self.bytes@));
        out
    }
}

} // verus!

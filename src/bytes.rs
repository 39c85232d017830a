//! Human byte counts: a decimal number with an optional binary suffix.
use vstd::prelude::*;
use vstd::string::StringSliceAdditionalSpecFns;
use crate::error::Error;

verus! {

/// Whether `c` is an ASCII decimal digit.
pub open spec fn is_digit(c: u8) -> bool {
    48 <= c <= 57
}

/// How many decimal digits `s` starts with.
pub open spec fn digit_run(s: Seq<u8>) -> nat
    decreases s.len(),
{
    if s.len() == 0 || !is_digit(s[0]) {
        0
    } else {
        1 + digit_run(s.drop_first())
    }
}

/// The value of a string of decimal digits, most significant first.
pub open spec fn digits_value(s: Seq<u8>) -> nat
    decreases s.len(),
{
    if s.len() == 0 {
        0
    } else {
        digits_value(s.drop_last()) * 10 + (s.last() - 48) as nat
    }
}

/// The power of 1024 a suffix stands for: none or `B` for bytes, then
/// `KiB`, `MiB`, `GiB`, `TiB`.
pub open spec fn suffix_power(s: Seq<u8>) -> Option<nat> {
    if s.len() == 0 || s == seq![66u8] {
        Some(0)
    } else if s.len() == 3 && s[1] == 105 && s[2] == 66 {
        if s[0] == 75 {
            Some(1)
        } else if s[0] == 77 {
            Some(2)
        } else if s[0] == 71 {
            Some(3)
        } else if s[0] == 84 {
            Some(4)
        } else {
            None
        }
    } else {
        None
    }
}

pub open spec fn pow1024(p: nat) -> nat
    decreases p,
{
    if p == 0 {
        1
    } else {
        1024 * pow1024((p - 1) as nat)
    }
}

/// The number of bytes that `s` writes, if it is well formed.
pub open spec fn byte_count(s: Seq<u8>) -> Option<nat> {
    let k = digit_run(s) as int;
    if k == 0 {
        None
    } else {
        match suffix_power(s.skip(k)) {
            Some(p) => Some(digits_value(s.take(k)) * pow1024(p)),
            None => None,
        }
    }
}

proof fn lemma_digit_run(s: Seq<u8>, i: int)
    requires
        0 <= i <= digit_run(s),
    ensures
        digit_run(s) <= s.len(),
        i < digit_run(s) ==> is_digit(s[i]),
        i == digit_run(s) ==> (i == s.len() || !is_digit(s[i])),
    decreases s.len(),
{
    if s.len() > 0 && is_digit(s[0]) {
        lemma_digit_run(s.drop_first(), if i > 0 { i - 1 } else { 0 });
    }
}

/// Parses a byte count such as `16KiB` or `512`. A text that does not start
/// with a digit, or whose count does not fit in 64 bits, is `ByteParse`; an
/// unknown suffix is `ByteSuffix`.
pub fn parse_byte_count(text: &str) -> (r: Result<u64, Error>)
    ensures
        r matches Ok(n) ==> byte_count(text.spec_bytes()) == Some(n as nat),
        byte_count(text.spec_bytes()) is Some && byte_count(text.spec_bytes())->0 <= u64::MAX ==> r
            == Ok::<u64, Error>(byte_count(text.spec_bytes())->0 as u64),
        digit_run(text.spec_bytes()) == 0 ==> r matches Err(Error::ByteParse { .. }),
        digit_run(text.spec_bytes()) > 0 && suffix_power(
            text.spec_bytes().skip(digit_run(text.spec_bytes()) as int),
        ) is None ==> r matches Err(Error::ByteSuffix { .. }),
        r is Err ==> (r matches Err(Error::ByteParse { .. }) || r matches Err(Error::ByteSuffix { .. })),
{
    let b = text.as_bytes();
    let ghost s = b@;
    let mut k: usize = 0;
    let mut value: u64 = 0;
    let mut overflow = false;
    while k < b.len() && 48 <= b[k] && b[k] <= 57
        invariant
            s == b@,
            k <= b.len(),
            k <= digit_run(s),
            !overflow ==> value as nat == digits_value(s.take(k as int)),
            overflow ==> digits_value(s.take(k as int)) > u64::MAX,
        decreases b.len() - k,
    {
        proof {
            lemma_digit_run(s, k as int);
            assert(s.take(k + 1).drop_last() =~= s.take(k as int));
        }
        let d: u64 = (b[k] - 48) as u64;
        if !overflow {
            if value > (u64::MAX - d) / 10 {
                overflow = true;
            } else {
                value = value * 10 + d;
            }
        } else {
            assert(digits_value(s.take(k + 1)) >= digits_value(s.take(k as int))) by (nonlinear_arith)
                requires
                    digits_value(s.take(k + 1)) == digits_value(s.take(k as int)) * 10 + (s[k as int]
                        - 48) as nat,
            ;
        }
        k = k + 1;
    }
    proof {
        lemma_digit_run(s, k as int);
        if k < digit_run(s) {
            lemma_digit_run(s, k as int);
        }
    }
    assert(k == digit_run(s));
    if k == 0 {
        return Err(Error::ByteParse { text: text.to_owned() });
    }
    let mut suffix: Vec<u8> = Vec::new();
    let mut i: usize = k;
    while i < b.len()
        invariant
            s == b@,
            k <= i <= b.len(),
            suffix@ == s.subrange(k as int, i as int),
        decreases b.len() - i,
    {
        suffix.push(b[i]);
        i = i + 1;
        assert(suffix@ =~= s.subrange(k as int, i as int));
    }
    assert(suffix@ =~= s.skip(k as int));
    let power: u32 = if suffix.len() == 0 || (suffix.len() == 1 && suffix[0] == 66) {
        if suffix.len() == 1 {
            assert(suffix@ =~= seq![66u8]);
        }
        0
    } else if suffix.len() == 3 && suffix[1] == 105 && suffix[2] == 66 && (suffix[0] == 75
        || suffix[0] == 77 || suffix[0] == 71 || suffix[0] == 84) {
        if suffix[0] == 75 {
            1
        } else if suffix[0] == 77 {
            2
        } else if suffix[0] == 71 {
            3
        } else {
            4
        }
    } else {
        assert(suffix.len() != 1 || suffix@ != seq![66u8]);
        let rest = if text.is_char_boundary(k) {
            text.split_at(k).1.to_owned()
        } else {
            String::new()
        };
        return Err(Error::ByteSuffix { text: text.to_owned(), suffix: rest });
    };
    assert(suffix_power(s.skip(k as int)) == Some(power as nat));
    if overflow {
        proof {
            lemma_pow1024_positive(power as nat);
            let v = digits_value(s.take(k as int));
            assert(v * pow1024(power as nat) >= v) by (nonlinear_arith)
                requires
                    pow1024(power as nat) >= 1,
            ;
        }
        return Err(Error::ByteParse { text: text.to_owned() });
    }
    let mut total: u64 = value;
    let mut p: u32 = 0;
    assert(pow1024(0) == 1);
    assert(total as nat == digits_value(s.take(k as int)) * pow1024(0));
    while p < power
        invariant
            p <= power <= 4,
            s == b@,
            b@ == text.spec_bytes(),
            0 < k == digit_run(s),
            suffix_power(s.skip(k as int)) == Some(power as nat),
            total as nat == digits_value(s.take(k as int)) * pow1024(p as nat),
        decreases power - p,
    {
        if total > u64::MAX / 1024 {
            assert(digits_value(s.take(k as int)) * pow1024(power as nat) > u64::MAX) by {
                lemma_pow_grows(digits_value(s.take(k as int)), p as nat, power as nat);
            }
            return Err(Error::ByteParse { text: text.to_owned() });
        }
        total = total * 1024;
        p = p + 1;
        assert(digits_value(s.take(k as int)) * pow1024(p as nat) == (digits_value(s.take(k as int))
            * pow1024((p - 1) as nat)) * 1024) by (nonlinear_arith)
            requires
                pow1024(p as nat) == 1024 * pow1024((p - 1) as nat),
        ;
    }
    Ok(total)
}

proof fn lemma_pow1024_positive(p: nat)
    ensures
        pow1024(p) >= 1,
    decreases p,
{
    if p > 0 {
        lemma_pow1024_positive((p - 1) as nat);
    }
}

proof fn lemma_pow_grows(v: nat, p: nat, q: nat)
    requires
        p < q,
        v * pow1024(p) > u64::MAX / 1024,
    ensures
        v * pow1024(q) > u64::MAX,
    decreases q - p,
{
    assert(v * pow1024(p + 1) == (v * pow1024(p)) * 1024) by (nonlinear_arith)
        requires
            pow1024(p + 1) == 1024 * pow1024(p),
    ;
    if p + 1 < q {
        lemma_pow_grows(v, p + 1, q);
        assert(v * pow1024(q) > u64::MAX);
    } else {
        assert(v * pow1024(p + 1) > u64::MAX);
    }
}

} // verus!

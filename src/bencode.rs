//! The canonical bencoding: integers, byte strings, lists and dictionaries.
use vstd::prelude::*;

verus! {

pub const COLON: u8 = 58;
pub const MINUS: u8 = 45;
pub const TAG_INT: u8 = 105;
pub const TAG_LIST: u8 = 108;
pub const TAG_DICT: u8 = 100;
pub const TAG_END: u8 = 101;

/// A bencoded value. Dictionary entries are kept in the order in which they
/// are stored; a well-formed dictionary has strictly ascending keys.
#[derive(Debug, PartialEq, Eq)]
pub enum Value {
    Integer(i128),
    Bytes(Vec<u8>),
    List(Vec<Value>),
    Dict(Vec<(Vec<u8>, Value)>),
}

/// The ASCII decimal digits of `n`, without leading zeros.
pub open spec fn decimal(n: nat) -> Seq<u8>
    decreases n,
{
    if n < 10 {
        seq![(n + 48) as u8]
    } else {
        decimal(n / 10) + seq![((n % 10) + 48) as u8]
    }
}

/// `<len>:<raw bytes>`.
pub open spec fn enc_bytes(b: Seq<u8>) -> Seq<u8> {
    decimal(b.len()) + seq![COLON] + b
}

/// `i<decimal>e`, with a minus sign for negative numbers.
pub open spec fn enc_int(i: int) -> Seq<u8> {
    if i < 0 {
        seq![TAG_INT, MINUS] + decimal((-i) as nat) + seq![TAG_END]
    } else {
        seq![TAG_INT] + decimal(i as nat) + seq![TAG_END]
    }
}

/// The canonical bencoding of a value.
pub open spec fn enc(v: Value) -> Seq<u8>
    decreases v,
{
    match v {
        Value::Integer(i) => enc_int(i as int),
        Value::Bytes(b) => enc_bytes(b@),
        Value::List(l) => seq![TAG_LIST] + enc_list(l@) + seq![TAG_END],
        Value::Dict(d) => seq![TAG_DICT] + enc_dict(d@) + seq![TAG_END],
    }
}

/// The encodings of the items, one after another.
pub open spec fn enc_list(s: Seq<Value>) -> Seq<u8>
    decreases s,
{
    if s.len() == 0 {
        Seq::empty()
    } else {
        enc_list(s.drop_last()) + enc(s.last())
    }
}

/// Each key's encoding followed by its value's, entry after entry.
pub open spec fn enc_dict(s: Seq<(Vec<u8>, Value)>) -> Seq<u8>
    decreases s,
{
    if s.len() == 0 {
        Seq::empty()
    } else {
        enc_dict(s.drop_last()) + enc_bytes(s.last().0@) + enc(s.last().1)
    }
}

/// `a` sorts strictly before `b`, comparing bytes lexicographically.
pub open spec fn lex_lt(a: Seq<u8>, b: Seq<u8>) -> bool
    decreases a.len(),
{
    if b.len() == 0 {
        false
    } else if a.len() == 0 {
        true
    } else if a[0] != b[0] {
        a[0] < b[0]
    } else {
        lex_lt(a.drop_first(), b.drop_first())
    }
}

/// Keys strictly ascending: sorted, with no key twice.
pub open spec fn keys_ascending(d: Seq<(Vec<u8>, Value)>) -> bool {
    forall|i: int| 0 < i < d.len() ==> #[trigger] lex_lt(d[i - 1].0@, d[i].0@)
}

/// A value in canonical form: every dictionary, at any depth, has strictly
/// ascending keys.
pub open spec fn wf(v: Value) -> bool
    decreases v,
{
    match v {
        Value::Integer(_) => true,
        Value::Bytes(_) => true,
        Value::List(l) => wf_list(l@),
        Value::Dict(d) => keys_ascending(d@) && wf_dict(d@),
    }
}

pub open spec fn wf_list(s: Seq<Value>) -> bool
    decreases s,
{
    s.len() == 0 || (wf_list(s.drop_last()) && wf(s.last()))
}

pub open spec fn wf_dict(s: Seq<(Vec<u8>, Value)>) -> bool
    decreases s,
{
    s.len() == 0 || (wf_dict(s.drop_last()) && wf(s.last().1))
}

/// Where decoding failed, and why.
#[derive(Debug, PartialEq, Eq, Structural)]
pub enum DecodeErrorKind {
    /// The input ended inside a value.
    UnexpectedEnd,
    /// A byte that cannot start or continue a value here.
    UnexpectedByte,
    /// A number with a leading zero, `-0`, or a magnitude beyond 64 bits.
    BadNumber,
    /// A dictionary key not strictly greater than the one before it.
    UnsortedKey,
    /// Bytes after the end of the top-level value.
    TrailingData,
}

#[derive(Debug, PartialEq, Eq)]
pub struct DecodeError {
    pub position: usize,
    pub kind: DecodeErrorKind,
}

/// Appends the decimal digits of `n`.
pub(crate) fn push_decimal(out: &mut Vec<u8>, n: u128)
    ensures
        final(out)@ == old(out)@ + decimal(n as nat),
    decreases n,
{
    if n < 10 {
        out.push((n + 48) as u8);
    } else {
        push_decimal(out, n / 10);
        out.push(((n % 10) + 48) as u8);
    }
}

fn push_bytes(out: &mut Vec<u8>, b: &Vec<u8>)
    ensures
        final(out)@ == old(out)@ + enc_bytes(b@),
{
    push_decimal(out, b.len() as u128);
    out.push(COLON);
    let mut i: usize = 0;
    while i < b.len()
        invariant
            i <= b.len(),
            out@ == old(out)@ + decimal(b@.len()) + seq![COLON] + b@.take(i as int),
        decreases b.len() - i,
    {
        out.push(b[i]);
        i = i + 1;
        assert(b@.take(i as int) == b@.take(i - 1) + seq![b@[i - 1]]);
    }
    assert(b@.take(b.len() as int) == b@);
}

fn push_int(out: &mut Vec<u8>, i: i128)
    ensures
        final(out)@ == old(out)@ + enc_int(i as int),
{
    out.push(TAG_INT);
    if i < 0 {
        out.push(MINUS);
        let m: u128 = if i == i128::MIN {
            0x8000_0000_0000_0000_0000_0000_0000_0000u128
        } else {
            (0 - i) as u128
        };
        push_decimal(out, m);
    } else {
        push_decimal(out, i as u128);
    }
    out.push(TAG_END);
}

/// Appends the canonical encoding of `v` to `out`.
pub fn encode_into(v: &Value, out: &mut Vec<u8>)
    ensures
        final(out)@ == old(out)@ + enc(*v),
    decreases v,
{
    match v {
        Value::Integer(i) => push_int(out, *i),
        Value::Bytes(b) => push_bytes(out, b),
        Value::List(l) => {
            out.push(TAG_LIST);
            proof {
                vstd::std_specs::vec::axiom_vec_decreases_to_view(*l);
                assert(decreases_to!(*v => *l));
            }
            let ghost start = out@;
            let mut k: usize = 0;
            while k < l.len()
                invariant
                    k <= l.len(),
                    out@ == start + enc_list(l@.take(k as int)),
                    decreases_to!(*v => l@),
                decreases l.len() - k,
            {
                proof {
                    vstd::seq::axiom_seq_index_decreases(l@, k as int);
                }
                encode_into(&l[k], out);
                k = k + 1;
                assert(l@.take(k as int).drop_last() == l@.take(k - 1));
            }
            assert(l@.take(l.len() as int) == l@);
            out.push(TAG_END);
        },
        Value::Dict(d) => {
            out.push(TAG_DICT);
            proof {
                vstd::std_specs::vec::axiom_vec_decreases_to_view(*d);
                assert(decreases_to!(*v => *d));
            }
            let ghost start = out@;
            let mut k: usize = 0;
            while k < d.len()
                invariant
                    k <= d.len(),
                    out@ == start + enc_dict(d@.take(k as int)),
                    decreases_to!(*v => d@),
                decreases d.len() - k,
            {
                proof {
                    vstd::seq::axiom_seq_index_decreases(d@, k as int);
                }
                push_bytes(out, &d[k].0);
                encode_into(&d[k].1, out);
                k = k + 1;
                assert(d@.take(k as int).drop_last() == d@.take(k - 1));
            }
            assert(d@.take(d.len() as int) == d@);
            out.push(TAG_END);
        },
    }
}

/// The canonical encoding of `v`.
pub fn encode(v: &Value) -> (r: Vec<u8>)
    ensures
        r@ == enc(*v),
{
    let mut out: Vec<u8> = Vec::new();
    encode_into(v, &mut out);
    assert(out@ == Seq::<u8>::empty() + enc(*v));
    out
}

/// The value of a string of decimal digits, most significant first.
pub open spec fn decimal_value(s: Seq<u8>) -> nat
    decreases s.len(),
{
    if s.len() == 0 {
        0
    } else {
        decimal_value(s.drop_last()) * 10 + (s.last() - 48) as nat
    }
}

pub open spec fn all_digits(s: Seq<u8>) -> bool {
    forall|i: int| 0 <= i < s.len() ==> 48 <= #[trigger] s[i] <= 57
}

/// `decimal(n)` is a non-empty run of digits that reads back as `n`.
pub proof fn lemma_decimal(n: nat)
    ensures
        decimal(n).len() >= 1,
        all_digits(decimal(n)),
        decimal_value(decimal(n)) == n,
    decreases n,
{
    if n < 10 {
        let d = decimal(n);
        assert(d.drop_last() =~= Seq::<u8>::empty());
        assert(decimal_value(d.drop_last()) == 0);
        assert(d.last() == (n + 48) as u8);
    } else {
        lemma_decimal(n / 10);
        let d = decimal(n);
        assert(d.drop_last() =~= decimal(n / 10));
        assert(d.last() == ((n % 10) + 48) as u8);
        assert(n == (n / 10) * 10 + n % 10);
        assert(decimal_value(d) == decimal_value(d.drop_last()) * 10 + (d.last() - 48) as nat);
        assert(all_digits(d)) by {
            assert forall|i: int| 0 <= i < d.len() implies 48 <= #[trigger] d[i] <= 57 by {
                if i < d.len() - 1 {
                    assert(d[i] == decimal(n / 10)[i]);
                }
            }
        }
    }
}

/// Reading more digits never lowers the value.
proof fn lemma_decimal_value_prefix(s: Seq<u8>, j: int)
    requires
        0 <= j <= s.len(),
        all_digits(s),
    ensures
        decimal_value(s.take(j)) <= decimal_value(s),
    decreases s.len() - j,
{
    if j < s.len() {
        let t = s.take(j + 1);
        assert(t.drop_last() =~= s.take(j));
        assert(48 <= s[j] <= 57);
        lemma_decimal_value_prefix(s, j + 1);
    } else {
        assert(s.take(j) =~= s);
    }
}

/// `decimal(n)` stands at `pos` in `b`, followed by a byte that is not a
/// digit or by the end.
pub open spec fn decimal_at(b: Seq<u8>, pos: int, n: nat) -> bool {
    let e = pos + decimal(n).len();
    &&& 0 <= pos
    &&& e <= b.len()
    &&& b.subrange(pos, e) == decimal(n)
    &&& (e == b.len() || !(48 <= b[e] <= 57))
}

proof fn lemma_decimal_at_unique(b: Seq<u8>, pos: int, n: nat, m: nat)
    requires
        decimal_at(b, pos, n),
        decimal_at(b, pos, m),
    ensures
        n == m,
{
    lemma_decimal(n);
    lemma_decimal(m);
    let (dn, dm) = (decimal(n), decimal(m));
    if dn.len() < dm.len() {
        assert(b[pos + dn.len()] == dm[dn.len() as int]);
    } else if dm.len() < dn.len() {
        assert(b[pos + dm.len()] == dn[dm.len() as int]);
    }
    assert(dn =~= dm);
}

/// `b` holds `e` at `pos`.
pub open spec fn bytes_at(b: Seq<u8>, pos: int, e: Seq<u8>) -> bool {
    0 <= pos && pos + e.len() <= b.len() && b.subrange(pos, pos + e.len()) == e
}

/// The encoding of `v` stands at `pos` in `b`.
pub open spec fn enc_at(b: Seq<u8>, pos: int, v: Value) -> bool {
    bytes_at(b, pos, enc(v))
}

/// Splits a match of `x + y` at `pos` into matches of `x` and of `y`.
proof fn lemma_bytes_at_split(b: Seq<u8>, pos: int, x: Seq<u8>, y: Seq<u8>)
    requires
        bytes_at(b, pos, x + y),
    ensures
        bytes_at(b, pos, x),
        bytes_at(b, pos + x.len(), y),
{
    assert(b.subrange(pos, pos + x.len()) =~= (x + y).subrange(0, x.len() as int));
    assert((x + y).subrange(0, x.len() as int) =~= x);
    assert(b.subrange(pos + x.len(), pos + x.len() + y.len()) =~= (x + y).subrange(
        x.len() as int,
        (x + y).len() as int,
    ));
    assert((x + y).subrange(x.len() as int, (x + y).len() as int) =~= y);
}

/// `b` holds `expected` at `pos`.
fn matches_at(b: &Vec<u8>, pos: usize, expected: &Vec<u8>) -> (r: bool)
    requires
        pos <= b.len(),
    ensures
        r == (expected.len() <= b.len() - pos && b@.subrange(pos as int, pos + expected.len())
            == expected@),
{
    if expected.len() > b.len() - pos {
        return false;
    }
    let mut i: usize = 0;
    while i < expected.len()
        invariant
            i <= expected.len(),
            expected.len() <= b.len() - pos,
            b@.subrange(pos as int, pos + i) == expected@.take(i as int),
        decreases expected.len() - i,
    {
        if b[pos + i] != expected[i] {
            assert(b@.subrange(pos as int, pos + expected.len())[i as int] != expected@[i as int]);
            return false;
        }
        i = i + 1;
        assert(b@.subrange(pos as int, pos + i) =~= expected@.take(i as int));
    }
    assert(expected@.take(i as int) =~= expected@);
    true
}

/// Reads a canonical natural number at `pos`: the digits of `n` and
/// nothing else, up to the returned end.
fn parse_natural(b: &Vec<u8>, pos: usize) -> (r: Option<(u64, usize)>)
    requires
        pos <= b.len(),
    ensures
        r matches Some((n, end)) ==> pos < end <= b.len() && b@.subrange(pos as int, end as int)
            == decimal(n as nat),
        forall|n: nat|
            n <= u64::MAX && #[trigger] decimal_at(b@, pos as int, n) ==> r == Some(
                (n as u64, (pos + decimal(n).len()) as usize),
            ),
{
    let ghost found = exists|n: nat| n <= u64::MAX && #[trigger] decimal_at(b@, pos as int, n);
    let ghost t: nat = if found {
        choose|n: nat| n <= u64::MAX && #[trigger] decimal_at(b@, pos as int, n)
    } else {
        0
    };
    let ghost dt = decimal(t);
    proof {
        lemma_decimal(t);
    }
    let mut end: usize = pos;
    let mut n: u64 = 0;
    while end < b.len() && 48 <= b[end] && b[end] <= 57
        invariant
            pos <= end <= b.len(),
            dt == decimal(t),
            all_digits(dt),
            decimal_value(dt) == t,
            found == exists|m: nat| m <= u64::MAX && #[trigger] decimal_at(b@, pos as int, m),
            found ==> t <= u64::MAX && decimal_at(b@, pos as int, t),
            found ==> end - pos <= dt.len() && n as nat == decimal_value(dt.take(end - pos)),
        decreases b.len() - end,
    {
        let d: u64 = (b[end] - 48) as u64;
        proof {
            if found {
                if end - pos == dt.len() {
                    assert(48 <= b@[end as int] <= 57);
                }
                assert(b@[end as int] == b@.subrange(pos as int, pos + dt.len())[end - pos]);
                assert(dt.take(end - pos + 1).drop_last() =~= dt.take(end - pos));
                lemma_decimal_value_prefix(dt, end - pos + 1);
                assert(n * 10 + d <= u64::MAX);
                assert(!(n > (u64::MAX - d) / 10)) by (nonlinear_arith)
                    requires
                        n * 10 + d <= u64::MAX,
                        d <= 9,
                ;
            }
        }
        if n > (u64::MAX - d) / 10 {
            return None;
        }
        n = n * 10 + d;
        end = end + 1;
    }
    proof {
        if found {
            if end - pos < dt.len() {
                assert(b@[end as int] == b@.subrange(pos as int, pos + dt.len())[end - pos]);
            }
            assert(dt.take(dt.len() as int) =~= dt);
            assert(end - pos == dt.len());
        }
    }
    proof {
        assert forall|m: nat| m <= u64::MAX && #[trigger] decimal_at(b@, pos as int, m) implies m
            == t && found by {
            lemma_decimal_at_unique(b@, pos as int, m, t);
        }
    }
    if end == pos {
        return None;
    }
    let mut digits: Vec<u8> = Vec::new();
    push_decimal(&mut digits, n as u128);
    assert(digits@ =~= decimal(n as nat));
    if digits.len() == end - pos && matches_at(b, pos, &digits) {
        Some((n, end))
    } else {
        None
    }
}

fn fail<T>(position: usize, kind: DecodeErrorKind) -> (r: Result<T, DecodeError>)
    ensures
        r matches Err(e) && e.position == position,
{
    Err(DecodeError { position, kind })
}

/// Reads a byte string `<len>:<bytes>` at `pos`.
fn parse_bytes(b: &Vec<u8>, pos: usize) -> (r: Result<(Vec<u8>, usize), DecodeError>)
    requires
        pos <= b.len(),
    ensures
        r matches Err(e) ==> e.position <= b.len(),
        r matches Ok((s, end)) ==> pos < end <= b.len() && b@.subrange(pos as int, end as int)
            == enc_bytes(s@),
        forall|x: Seq<u8>|
            #[trigger] bytes_at(b@, pos as int, enc_bytes(x)) ==> (r matches Ok((s, end)) && s@ == x
                && end == pos + enc_bytes(x).len()),
{
    proof {
        assert forall|x: Seq<u8>| #[trigger] bytes_at(b@, pos as int, enc_bytes(x)) implies decimal_at(
            b@,
            pos as int,
            x.len(),
        ) && x.len() <= u64::MAX by {
            lemma_bytes_at_split(b@, pos as int, decimal(x.len()) + seq![COLON], x);
            lemma_bytes_at_split(b@, pos as int, decimal(x.len()), seq![COLON]);
            let q = pos + decimal(x.len()).len();
            assert(b@.subrange(q, q + 1)[0] == b@[q]);
            assert(b@[q] == COLON);
        }
    }
    let (n, p) = match parse_natural(b, pos) {
        Some(x) => x,
        None => return fail(pos, DecodeErrorKind::BadNumber),
    };
    proof {
        assert forall|x: Seq<u8>| #[trigger] bytes_at(b@, pos as int, enc_bytes(x)) implies n == x.len()
            && bytes_at(b@, p as int, seq![COLON] + x) by {
            assert(enc_bytes(x) =~= decimal(x.len()) + (seq![COLON] + x));
            lemma_bytes_at_split(b@, pos as int, decimal(x.len()), seq![COLON] + x);
        }
    }
    if p >= b.len() {
        proof {
            assert forall|x: Seq<u8>| #[trigger] bytes_at(b@, pos as int, enc_bytes(x)) implies false by {
                assert(bytes_at(b@, p as int, seq![COLON] + x));
            }
        }
        return fail(p, DecodeErrorKind::UnexpectedEnd);
    }
    proof {
        assert forall|x: Seq<u8>| #[trigger] bytes_at(b@, pos as int, enc_bytes(x)) implies b@[p as int]
            == COLON && bytes_at(b@, p + 1, x) by {
            lemma_bytes_at_split(b@, p as int, seq![COLON], x);
            assert(b@.subrange(p as int, p + 1)[0] == b@[p as int]);
        }
    }
    if b[p] != COLON {
        return fail(p, DecodeErrorKind::UnexpectedByte);
    }
    let start: usize = p + 1;
    if n > (b.len() - start) as u64 {
        return fail(start, DecodeErrorKind::UnexpectedEnd);
    }
    let end: usize = start + n as usize;
    let mut s: Vec<u8> = Vec::new();
    let mut i: usize = start;
    while i < end
        invariant
            start <= i <= end <= b.len(),
            s@ == b@.subrange(start as int, i as int),
        decreases end - i,
    {
        s.push(b[i]);
        i = i + 1;
        assert(s@ =~= b@.subrange(start as int, i as int));
    }
    assert(b@.subrange(pos as int, end as int) =~= b@.subrange(pos as int, p as int) + seq![COLON]
        + s@);
    proof {
        assert forall|x: Seq<u8>| #[trigger] bytes_at(b@, pos as int, enc_bytes(x)) implies s@ == x
            && end == pos + enc_bytes(x).len() by {
            assert(s@ =~= x);
        }
    }
    Ok((s, end))
}

pub open spec fn abs(i: int) -> nat {
    if i < 0 {
        (-i) as nat
    } else {
        i as nat
    }
}

/// An integer whose magnitude fits in 64 bits.
pub open spec fn fits_int(i: int) -> bool {
    abs(i) <= u64::MAX
}

/// Where the digits of an encoded integer start.
pub open spec fn int_digits_at(pos: int, i: int) -> int {
    if i < 0 {
        pos + 2
    } else {
        pos + 1
    }
}

proof fn lemma_int_at(b: Seq<u8>, pos: int, i: int)
    requires
        bytes_at(b, pos, enc_int(i)),
    ensures
        pos + 1 < b.len(),
        (b[pos + 1] == MINUS) == (i < 0),
        decimal_at(b, int_digits_at(pos, i), abs(i)),
        b[int_digits_at(pos, i) + decimal(abs(i)).len()] == TAG_END,
        enc_int(i).len() == int_digits_at(pos, i) - pos + decimal(abs(i)).len() + 1,
{
    let d = decimal(abs(i));
    lemma_decimal(abs(i));
    let start = int_digits_at(pos, i);
    let head = if i < 0 { seq![TAG_INT, MINUS] } else { seq![TAG_INT] };
    assert(enc_int(i) =~= head + (d + seq![TAG_END]));
    lemma_bytes_at_split(b, pos, head, d + seq![TAG_END]);
    lemma_bytes_at_split(b, start, d, seq![TAG_END]);
    let e = start + d.len();
    assert(b.subrange(e, e + 1)[0] == b[e]);
    assert(b.subrange(start, start + d.len())[0] == b[start]);
    if i < 0 {
        assert(b.subrange(pos, pos + 2)[1] == b[pos + 1]);
    } else {
        assert(b[pos + 1] == d[0]);
    }
}

/// Reads an integer `i<decimal>e` at `pos`, just after its tag.
fn parse_int(b: &Vec<u8>, pos: usize) -> (r: Result<(i128, usize), DecodeError>)
    requires
        pos < b.len(),
        b@[pos as int] == TAG_INT,
    ensures
        r matches Err(e) ==> e.position <= b.len(),
        r matches Ok((i, end)) ==> pos < end <= b.len() && b@.subrange(pos as int, end as int)
            == enc_int(i as int),
        forall|i: int|
            fits_int(i) && #[trigger] bytes_at(b@, pos as int, enc_int(i)) ==> (r matches Ok((j, end))
                && j == i && end == pos + enc_int(i).len()),
{
    let mut p: usize = pos + 1;
    let negative = p < b.len() && b[p] == MINUS;
    if negative {
        p = p + 1;
    }
    proof {
        assert forall|i: int| fits_int(i) && #[trigger] bytes_at(b@, pos as int, enc_int(i)) implies negative
            == (i < 0) && p == int_digits_at(pos as int, i) && decimal_at(b@, p as int, abs(i))
            && b@[p + decimal(abs(i)).len()] == TAG_END && enc_int(i).len() == p - pos + decimal(abs(i)).len() + 1 by {
            lemma_int_at(b@, pos as int, i);
        }
    }
    let (n, q) = match parse_natural(b, p) {
        Some(x) => x,
        None => return fail(p, DecodeErrorKind::BadNumber),
    };
    if q >= b.len() {
        return fail(q, DecodeErrorKind::UnexpectedEnd);
    }
    if b[q] != TAG_END {
        return fail(q, DecodeErrorKind::UnexpectedByte);
    }
    let i: i128;
    if negative {
        if n == 0 {
            return fail(p, DecodeErrorKind::BadNumber);
        }
        i = 0 - (n as i128);
        assert(b@.subrange(pos as int, q + 1) =~= seq![TAG_INT, MINUS] + b@.subrange(
            p as int,
            q as int,
        ) + seq![TAG_END]);
    } else {
        i = n as i128;
        assert(b@.subrange(pos as int, q + 1) =~= seq![TAG_INT] + b@.subrange(p as int, q as int)
            + seq![TAG_END]);
    }
    Ok((i, q + 1))
}

/// Every integer inside `v` has a magnitude that fits in 64 bits.
pub open spec fn fits(v: Value) -> bool
    decreases v,
{
    match v {
        Value::Integer(i) => fits_int(i as int),
        Value::Bytes(_) => true,
        Value::List(l) => fits_list(l@),
        Value::Dict(d) => fits_dict(d@),
    }
}

pub open spec fn fits_list(s: Seq<Value>) -> bool
    decreases s,
{
    s.len() == 0 || (fits_list(s.drop_last()) && fits(s.last()))
}

pub open spec fn fits_dict(s: Seq<(Vec<u8>, Value)>) -> bool
    decreases s,
{
    s.len() == 0 || (fits_dict(s.drop_last()) && fits(s.last().1))
}

proof fn lemma_list_index(s: Seq<Value>, i: int)
    requires
        0 <= i < s.len(),
    ensures
        wf_list(s) ==> wf(s[i]),
        fits_list(s) ==> fits(s[i]),
    decreases s.len(),
{
    if i < s.len() - 1 {
        lemma_list_index(s.drop_last(), i);
    }
}

proof fn lemma_dict_index(s: Seq<(Vec<u8>, Value)>, i: int)
    requires
        0 <= i < s.len(),
    ensures
        wf_dict(s) ==> wf(s[i].1),
        fits_dict(s) ==> fits(s[i].1),
    decreases s.len(),
{
    if i < s.len() - 1 {
        lemma_dict_index(s.drop_last(), i);
    }
}

proof fn lemma_enc_list_split(s: Seq<Value>, j: int)
    requires
        0 <= j <= s.len(),
    ensures
        enc_list(s) == enc_list(s.take(j)) + enc_list(s.skip(j)),
    decreases s.len(),
{
    if j == s.len() {
        assert(s.take(j) =~= s);
        assert(s.skip(j) =~= Seq::<Value>::empty());
        assert(enc_list(s) + Seq::<u8>::empty() =~= enc_list(s));
    } else {
        let dl = s.drop_last();
        lemma_enc_list_split(dl, j);
        assert(dl.take(j) =~= s.take(j));
        assert(s.skip(j).drop_last() =~= dl.skip(j));
        assert(s.skip(j).last() == s.last());
        assert(enc_list(s) =~= enc_list(s.take(j)) + enc_list(s.skip(j)));
    }
}

proof fn lemma_enc_dict_split(s: Seq<(Vec<u8>, Value)>, j: int)
    requires
        0 <= j <= s.len(),
    ensures
        enc_dict(s) == enc_dict(s.take(j)) + enc_dict(s.skip(j)),
    decreases s.len(),
{
    if j == s.len() {
        assert(s.take(j) =~= s);
        assert(s.skip(j) =~= Seq::<(Vec<u8>, Value)>::empty());
        assert(enc_dict(s) + Seq::<u8>::empty() =~= enc_dict(s));
    } else {
        let dl = s.drop_last();
        lemma_enc_dict_split(dl, j);
        assert(dl.take(j) =~= s.take(j));
        assert(s.skip(j).drop_last() =~= dl.skip(j));
        assert(s.skip(j).last() == s.last());
        assert(enc_dict(s) =~= enc_dict(s.take(j)) + enc_dict(s.skip(j)));
    }
}

/// The items of a list from `k` on: item `k` first, then the rest.
proof fn lemma_enc_list_at(s: Seq<Value>, k: int)
    requires
        0 <= k < s.len(),
    ensures
        enc_list(s.skip(k)) == enc(s[k]) + enc_list(s.skip(k + 1)),
        enc_list(s.take(k + 1)) == enc_list(s.take(k)) + enc(s[k]),
{
    let t = s.skip(k);
    lemma_enc_list_split(t, 1);
    assert(t.take(1).drop_last() =~= Seq::<Value>::empty());
    assert(t.take(1).last() == s[k]);
    assert(enc_list(t.take(1).drop_last()) == Seq::<u8>::empty());
    assert(enc_list(t.take(1)) == enc_list(t.take(1).drop_last()) + enc(t.take(1).last()));
    assert(enc_list(t.take(1)) =~= enc(s[k]));
    assert(t.skip(1) =~= s.skip(k + 1));
    assert(s.take(k + 1).drop_last() =~= s.take(k));
}

proof fn lemma_enc_dict_at(s: Seq<(Vec<u8>, Value)>, k: int)
    requires
        0 <= k < s.len(),
    ensures
        enc_dict(s.skip(k)) == enc_bytes(s[k].0@) + enc(s[k].1) + enc_dict(s.skip(k + 1)),
        enc_dict(s.take(k + 1)) == enc_dict(s.take(k)) + enc_bytes(s[k].0@) + enc(s[k].1),
{
    let t = s.skip(k);
    lemma_enc_dict_split(t, 1);
    assert(t.take(1).drop_last() =~= Seq::<(Vec<u8>, Value)>::empty());
    assert(t.take(1).last() == s[k]);
    assert(enc_dict(t.take(1).drop_last()) == Seq::<u8>::empty());
    assert(enc_dict(t.take(1)) == enc_dict(t.take(1).drop_last()) + enc_bytes(t.take(1).last().0@)
        + enc(t.take(1).last().1));
    assert(enc_dict(t.take(1)) =~= enc_bytes(s[k].0@) + enc(s[k].1));
    assert(t.skip(1) =~= s.skip(k + 1));
    assert(s.take(k + 1).drop_last() =~= s.take(k));
}

/// The first byte of an encoding tells its kind; none starts with `e`.
proof fn lemma_enc_first(v: Value)
    ensures
        enc(v).len() >= 1,
        enc(v)[0] != TAG_END,
        (enc(v)[0] == TAG_INT) == (v is Integer),
        (enc(v)[0] == TAG_LIST) == (v is List),
        (enc(v)[0] == TAG_DICT) == (v is Dict),
        (48 <= enc(v)[0] <= 57) == (v is Bytes),
{
    match v {
        Value::Bytes(b) => {
            lemma_decimal(b@.len());
            assert(enc(v)[0] == decimal(b@.len())[0]);
        },
        _ => {},
    }
}

/// A value's encoding at `pos`, split as `[tag] ++ body ++ [e]`.
proof fn lemma_container_at(b: Seq<u8>, pos: int, tag: u8, body: Seq<u8>)
    requires
        bytes_at(b, pos, seq![tag] + body + seq![TAG_END]),
    ensures
        bytes_at(b, pos + 1, body),
        b[pos + 1 + body.len()] == TAG_END,
{
    assert(seq![tag] + body + seq![TAG_END] =~= seq![tag] + (body + seq![TAG_END]));
    lemma_bytes_at_split(b, pos, seq![tag], body + seq![TAG_END]);
    lemma_bytes_at_split(b, pos + 1, body, seq![TAG_END]);
    assert(b.subrange(pos + 1 + body.len(), pos + 2 + body.len())[0] == b[pos + 1 + body.len()]);
}

/// Exec form of `lex_lt`.
pub fn bytes_lt(a: &Vec<u8>, b: &Vec<u8>) -> (r: bool)
    ensures
        r == lex_lt(a@, b@),
{
    let mut i: usize = 0;
    assert(a@.skip(0) =~= a@ && b@.skip(0) =~= b@);
    while i < a.len() && i < b.len() && a[i] == b[i]
        invariant
            i <= a.len(),
            i <= b.len(),
            lex_lt(a@, b@) == lex_lt(a@.skip(i as int), b@.skip(i as int)),
        decreases a.len() - i,
    {
        assert(a@.skip(i as int).drop_first() =~= a@.skip(i + 1));
        assert(b@.skip(i as int).drop_first() =~= b@.skip(i + 1));
        i = i + 1;
    }
    if i == b.len() {
        false
    } else if i == a.len() {
        true
    } else {
        a[i] < b[i]
    }
}

/// The values whose encoding the parser is owed to accept at `pos`.
pub open spec fn owed(b: Seq<u8>, pos: int, v: Value) -> bool {
    wf(v) && fits(v) && enc_at(b, pos, v)
}

/// Reads one value at `pos`. Whatever it accepts is in canonical form and is
/// exactly the encoding of the value returned; and it accepts the encoding
/// of every canonical value whose integers fit in 64 bits.
#[verifier::rlimit(60)]
fn parse_value(b: &Vec<u8>, pos: usize) -> (r: Result<(Value, usize), DecodeError>)
    requires
        pos <= b.len(),
    ensures
        r matches Err(e) ==> e.position <= b.len(),
        r matches Ok((v, end)) ==> pos < end <= b.len() && b@.subrange(pos as int, end as int)
            == enc(v) && wf(v),
        forall|v: Value|
            #[trigger] owed(b@, pos as int, v) ==> (r matches Ok((_, end)) && end == pos + enc(
                v,
            ).len()),
    decreases b.len() - pos,
{
    proof {
        assert forall|v: Value| #[trigger] owed(b@, pos as int, v) implies pos < b.len() && b@[pos as int]
            == enc(v)[0] by {
            lemma_enc_first(v);
            assert(b@.subrange(pos as int, pos + enc(v).len())[0] == b@[pos as int]);
        }
    }
    if pos >= b.len() {
        return fail(pos, DecodeErrorKind::UnexpectedEnd);
    }
    let tag = b[pos];
    proof {
        assert forall|v: Value| #[trigger] owed(b@, pos as int, v) implies enc(v)[0] == tag && (tag
            == TAG_INT) == (v is Integer) && (tag == TAG_LIST) == (v is List) && (tag == TAG_DICT)
            == (v is Dict) && (48 <= tag <= 57) == (v is Bytes) && tag != TAG_END by {
            lemma_enc_first(v);
        }
    }
    if tag == TAG_INT {
        match parse_int(b, pos) {
            Ok((i, end)) => {
                proof {
                    assert forall|v: Value| #[trigger] owed(b@, pos as int, v) implies end == pos + enc(
                        v,
                    ).len() by {
                        if let Value::Integer(j) = v {
                            assert(bytes_at(b@, pos as int, enc_int(j as int)));
                        }
                    }
                }
                Ok((Value::Integer(i), end))
            },
            Err(e) => {
                proof {
                    assert forall|v: Value| #[trigger] owed(b@, pos as int, v) implies false by {
                        if let Value::Integer(j) = v {
                            assert(bytes_at(b@, pos as int, enc_int(j as int)));
                        }
                    }
                }
                Err(e)
            },
        }
    } else if 48 <= tag && tag <= 57 {
        match parse_bytes(b, pos) {
            Ok((s, end)) => {
                proof {
                    assert forall|v: Value| #[trigger] owed(b@, pos as int, v) implies end == pos + enc(
                        v,
                    ).len() by {
                        if let Value::Bytes(x) = v {
                            assert(bytes_at(b@, pos as int, enc_bytes(x@)));
                        }
                    }
                }
                Ok((Value::Bytes(s), end))
            },
            Err(e) => {
                proof {
                    assert forall|v: Value| #[trigger] owed(b@, pos as int, v) implies false by {
                        if let Value::Bytes(x) = v {
                            assert(bytes_at(b@, pos as int, enc_bytes(x@)));
                        }
                    }
                }
                Err(e)
            },
        }
    } else if tag == TAG_LIST {
        let mut items: Vec<Value> = Vec::new();
        let mut p: usize = pos + 1;
        proof {
            assert forall|v: Value| #[trigger] owed(b@, pos as int, v) implies (v is List && p == pos
                + 1 + enc_list(v->List_0@.take(0)).len()) by {
                assert(v->List_0@.take(0) =~= Seq::<Value>::empty());
            }
        }
        loop
            invariant
                pos < p <= b.len(),
                b@.subrange(pos + 1, p as int) == enc_list(items@),
                wf_list(items@),
                forall|v: Value| #[trigger]
                    owed(b@, pos as int, v) ==> (v is List && items@.len() <= v->List_0@.len() && p
                        == pos + 1 + enc_list(v->List_0@.take(items@.len() as int)).len()),
            ensures
                p < b.len(),
                b@[p as int] == TAG_END,
            decreases b.len() - p,
        {
            let ghost k = items@.len() as int;
            proof {
                assert forall|v: Value| #[trigger] owed(b@, pos as int, v) implies p < b.len() && (k
                    == v->List_0@.len() ==> b@[p as int] == TAG_END) && (k < v->List_0@.len() ==> (
                b@[p as int] != TAG_END && owed(b@, p as int, v->List_0@[k]))) by {
                    let l = v->List_0@;
                    lemma_container_at(b@, pos as int, TAG_LIST, enc_list(l));
                    lemma_enc_list_split(l, k);
                    if k < l.len() {
                        lemma_enc_list_at(l, k);
                        lemma_list_index(l, k);
                        assert(enc_list(l) =~= enc_list(l.take(k)) + (enc(l[k]) + enc_list(l.skip(k + 1))));
                        lemma_bytes_at_split(b@, pos + 1, enc_list(l.take(k)), enc(l[k]) + enc_list(l.skip(k + 1)));
                        lemma_bytes_at_split(b@, p as int, enc(l[k]), enc_list(l.skip(k + 1)));
                        lemma_enc_first(l[k]);
                        assert(b@.subrange(p as int, p + enc(l[k]).len())[0] == b@[p as int]);
                    } else {
                        assert(l.take(k) =~= l);
                    }
                }
            }
            if p >= b.len() {
                return fail(p, DecodeErrorKind::UnexpectedEnd);
            }
            if b[p] == TAG_END {
                break;
            }
            let (item, q) = match parse_value(b, p) {
                Ok(x) => x,
                Err(e) => {
                    proof {
                        assert forall|v: Value| #[trigger] owed(b@, pos as int, v) implies false by {
                            assert(owed(b@, p as int, v->List_0@[k]));
                        }
                    }
                    return Err(e);
                },
            };
            let ghost old_items = items@;
            items.push(item);
            proof {
                assert(items@.drop_last() =~= old_items);
                assert(b@.subrange(pos + 1, q as int) =~= b@.subrange(pos + 1, p as int)
                    + b@.subrange(p as int, q as int));
                assert forall|v: Value| #[trigger] owed(b@, pos as int, v) implies (v is List
                    && items@.len() <= v->List_0@.len() && q == pos + 1 + enc_list(
                    v->List_0@.take(items@.len() as int),
                ).len()) by {
                    let l = v->List_0@;
                    assert(owed(b@, p as int, l[k]));
                    lemma_enc_list_at(l, k);
                }
            }
            p = q;
        }
        let v = Value::List(items);
        assert(b@.subrange(pos as int, p + 1) =~= seq![TAG_LIST] + b@.subrange(pos + 1, p as int)
            + seq![TAG_END]);
        proof {
            assert forall|w: Value| #[trigger] owed(b@, pos as int, w) implies p + 1 == pos + enc(
                w,
            ).len() by {
                let l = w->List_0@;
                let k = v->List_0@.len() as int;
                lemma_container_at(b@, pos as int, TAG_LIST, enc_list(l));
                lemma_enc_list_split(l, k);
                if k < l.len() {
                    lemma_enc_list_at(l, k);
                    lemma_list_index(l, k);
                    assert(enc_list(l) =~= enc_list(l.take(k)) + (enc(l[k]) + enc_list(l.skip(k + 1))));
                    lemma_bytes_at_split(b@, pos + 1, enc_list(l.take(k)), enc(l[k]) + enc_list(l.skip(k + 1)));
                    lemma_bytes_at_split(b@, p as int, enc(l[k]), enc_list(l.skip(k + 1)));
                    lemma_enc_first(l[k]);
                    assert(b@.subrange(p as int, p + enc(l[k]).len())[0] == b@[p as int]);
                } else {
                    assert(l.take(k) =~= l);
                }
            }
        }
        Ok((v, p + 1))
    } else if tag == TAG_DICT {
        let mut entries: Vec<(Vec<u8>, Value)> = Vec::new();
        let mut p: usize = pos + 1;
        proof {
            assert forall|v: Value| #[trigger] owed(b@, pos as int, v) implies (v is Dict && p == pos
                + 1 + enc_dict(v->Dict_0@.take(0)).len()) by {
                assert(v->Dict_0@.take(0) =~= Seq::<(Vec<u8>, Value)>::empty());
            }
        }
        loop
            invariant
                pos < p <= b.len(),
                b@.subrange(pos + 1, p as int) == enc_dict(entries@),
                wf_dict(entries@),
                keys_ascending(entries@),
                forall|v: Value| #[trigger]
                    owed(b@, pos as int, v) ==> (v is Dict && entries@.len() <= v->Dict_0@.len() && p
                        == pos + 1 + enc_dict(v->Dict_0@.take(entries@.len() as int)).len() && forall|
                        j: int,
                    |
                        0 <= j < entries@.len() ==> #[trigger] entries@[j].0@ == v->Dict_0@[j].0@),
            ensures
                p < b.len(),
                b@[p as int] == TAG_END,
            decreases b.len() - p,
        {
            let ghost k = entries@.len() as int;
            proof {
                assert forall|v: Value| #[trigger] owed(b@, pos as int, v) implies p < b.len() && (k
                    == v->Dict_0@.len() ==> b@[p as int] == TAG_END) && (k < v->Dict_0@.len() ==> (
                b@[p as int] != TAG_END && bytes_at(b@, p as int, enc_bytes(v->Dict_0@[k].0@))
                    && owed(b@, p + enc_bytes(v->Dict_0@[k].0@).len(), v->Dict_0@[k].1))) by {
                    let d = v->Dict_0@;
                    lemma_container_at(b@, pos as int, TAG_DICT, enc_dict(d));
                    lemma_enc_dict_split(d, k);
                    if k < d.len() {
                        lemma_enc_dict_at(d, k);
                        lemma_dict_index(d, k);
                        let kb = enc_bytes(d[k].0@);
                        assert(enc_dict(d) =~= enc_dict(d.take(k)) + (kb + (enc(d[k].1) + enc_dict(d.skip(k + 1)))));
                        lemma_bytes_at_split(b@, pos + 1, enc_dict(d.take(k)), kb + (enc(d[k].1) + enc_dict(d.skip(k + 1))));
                        lemma_bytes_at_split(b@, p as int, kb, enc(d[k].1) + enc_dict(d.skip(k + 1)));
                        lemma_bytes_at_split(b@, p + kb.len(), enc(d[k].1), enc_dict(d.skip(k + 1)));
                        lemma_decimal(d[k].0@.len());
                        assert(kb[0] == decimal(d[k].0@.len())[0]);
                        assert(b@.subrange(p as int, p + kb.len())[0] == b@[p as int]);
                    } else {
                        assert(d.take(k) =~= d);
                    }
                }
            }
            if p >= b.len() {
                return fail(p, DecodeErrorKind::UnexpectedEnd);
            }
            if b[p] == TAG_END {
                break;
            }
            let (key, q) = match parse_bytes(b, p) {
                Ok(x) => x,
                Err(e) => {
                    proof {
                        assert forall|v: Value| #[trigger] owed(b@, pos as int, v) implies false by {
                            assert(bytes_at(b@, p as int, enc_bytes(v->Dict_0@[k].0@)));
                        }
                    }
                    return Err(e);
                },
            };
            proof {
                assert forall|v: Value| #[trigger] owed(b@, pos as int, v) implies key@ == v->Dict_0@[k].0@
                    && q == p + enc_bytes(v->Dict_0@[k].0@).len() && (k > 0 ==> lex_lt(
                    entries@[k - 1].0@,
                    key@,
                )) by {
                    assert(bytes_at(b@, p as int, enc_bytes(v->Dict_0@[k].0@)));
                    if k > 0 {
                        assert(entries@[k - 1].0@ == v->Dict_0@[k - 1].0@);
                        assert(lex_lt(v->Dict_0@[k - 1].0@, v->Dict_0@[k].0@));
                    }
                }
            }
            if entries.len() > 0 && !bytes_lt(&entries[entries.len() - 1].0, &key) {
                return fail(p, DecodeErrorKind::UnsortedKey);
            }
            let (item, e) = match parse_value(b, q) {
                Ok(x) => x,
                Err(err) => {
                    proof {
                        assert forall|v: Value| #[trigger] owed(b@, pos as int, v) implies false by {
                            assert(owed(b@, q as int, v->Dict_0@[k].1));
                        }
                    }
                    return Err(err);
                },
            };
            let ghost old_entries = entries@;
            entries.push((key, item));
            proof {
                assert(entries@.drop_last() =~= old_entries);
                assert(b@.subrange(pos + 1, e as int) =~= b@.subrange(pos + 1, p as int)
                    + b@.subrange(p as int, q as int) + b@.subrange(q as int, e as int));
                assert forall|i: int| 0 < i < entries@.len() implies #[trigger] lex_lt(
                    entries@[i - 1].0@,
                    entries@[i].0@,
                ) by {
                    if i < old_entries.len() {
                        assert(lex_lt(old_entries[i - 1].0@, old_entries[i].0@));
                    }
                }
                assert forall|v: Value| #[trigger] owed(b@, pos as int, v) implies (v is Dict
                    && entries@.len() <= v->Dict_0@.len() && e == pos + 1 + enc_dict(
                    v->Dict_0@.take(entries@.len() as int),
                ).len() && forall|j: int|
                    0 <= j < entries@.len() ==> #[trigger] entries@[j].0@ == v->Dict_0@[j].0@) by {
                    let d = v->Dict_0@;
                    assert(owed(b@, q as int, d[k].1));
                    lemma_enc_dict_at(d, k);
                    assert forall|j: int| 0 <= j < entries@.len() implies #[trigger] entries@[j].0@
                        == d[j].0@ by {
                        if j < k {
                            assert(entries@[j] == old_entries[j]);
                        }
                    }
                }
            }
            p = e;
        }
        let v = Value::Dict(entries);
        assert(b@.subrange(pos as int, p + 1) =~= seq![TAG_DICT] + b@.subrange(pos + 1, p as int)
            + seq![TAG_END]);
        proof {
            assert forall|w: Value| #[trigger] owed(b@, pos as int, w) implies p + 1 == pos + enc(
                w,
            ).len() by {
                let d = w->Dict_0@;
                let k = v->Dict_0@.len() as int;
                lemma_container_at(b@, pos as int, TAG_DICT, enc_dict(d));
                lemma_enc_dict_split(d, k);
                if k < d.len() {
                    lemma_enc_dict_at(d, k);
                    let kb = enc_bytes(d[k].0@);
                    assert(enc_dict(d) =~= enc_dict(d.take(k)) + (kb + (enc(d[k].1) + enc_dict(d.skip(k + 1)))));
                    lemma_bytes_at_split(b@, pos + 1, enc_dict(d.take(k)), kb + (enc(d[k].1) + enc_dict(d.skip(k + 1))));
                    lemma_bytes_at_split(b@, p as int, kb, enc(d[k].1) + enc_dict(d.skip(k + 1)));
                    lemma_decimal(d[k].0@.len());
                    assert(kb[0] == decimal(d[k].0@.len())[0]);
                    assert(b@.subrange(p as int, p + kb.len())[0] == b@[p as int]);
                } else {
                    assert(d.take(k) =~= d);
                }
            }
        }
        Ok((v, p + 1))
    } else {
        fail(pos, DecodeErrorKind::UnexpectedByte)
    }
}

/// Bytes that are the encoding of a well-formed value whose integers fit
/// in 64 bits.
pub open spec fn canonical(b: Seq<u8>) -> bool {
    exists|v: Value| wf(v) && fits(v) && #[trigger] enc(v) == b
}

/// The encoding of a well-formed value whose integers fit in 64 bits is
/// canonical, so `decode` accepts what `encode` makes of it, and gives back
/// a value with the same encoding.
pub proof fn lemma_encoding_is_canonical(v: Value)
    requires
        wf(v),
        fits(v),
    ensures
        canonical(enc(v)),
{
    assert(wf(v) && fits(v) && enc(v) == enc(v));
}

/// Decodes a whole document. It succeeds on every canonical input, and
/// only where what it returns encodes back to exactly `b`, with every
/// dictionary's keys strictly ascending.
pub fn decode(b: &Vec<u8>) -> (r: Result<Value, DecodeError>)
    ensures
        r matches Err(e) ==> e.position <= b.len(),
        r matches Ok(v) ==> enc(v) == b@ && wf(v),
        canonical(b@) ==> r is Ok,
{
    proof {
        assert forall|v: Value| wf(v) && fits(v) && #[trigger] enc(v) == b@ implies owed(b@, 0, v) by {
            assert(b@.subrange(0, b@.len() as int) =~= b@);
        }
    }
    let (v, end) = match parse_value(b, 0) {
        Ok(x) => x,
        Err(e) => return Err(e),
    };
    proof {
        assert forall|w: Value| wf(w) && fits(w) && #[trigger] enc(w) == b@ implies end == b.len() by {
            assert(owed(b@, 0, w));
        }
    }
    if end != b.len() {
        return fail(end, DecodeErrorKind::TrailingData);
    }

    assert(b@.subrange(0, end as int) =~= b@);
    Ok(v)
}

} // verus!

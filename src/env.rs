//! The environment a command runs in: its arguments, working directory and
//! how its output streams are to be styled.
use vstd::prelude::*;

verus! {

pub const SLASH: u8 = 47;
pub const DOT: u8 = 46;

/// Whether terminal styling is switched on for a stream.
#[derive(Debug, PartialEq, Eq, Clone, Copy, Structural)]
pub struct Style {
    pub active: bool,
}

impl Style {
    pub fn active() -> (r: Style)
        ensures
            r.active,
    {
        Style { active: true }
    }

    pub fn inactive() -> (r: Style)
        ensures
            !r.active,
    {
        Style { active: false }
    }
}

/// The style of an output stream: active only on a terminal, and only when
/// neither `NO_COLOR` is set nor `TERM` is `dumb`.
pub fn stream_style(no_color: bool, term_is_dumb: bool, is_term: bool) -> (r: Style)
    ensures
        r.active == (!no_color && !term_is_dumb && is_term),
{
    Style { active: !no_color && !term_is_dumb && is_term }
}

pub open spec fn is_dot(c: Seq<u8>) -> bool {
    c == seq![DOT]
}

pub open spec fn is_dot_dot(c: Seq<u8>) -> bool {
    c == seq![DOT, DOT]
}

/// Adds one path component to the cleaned components so far: empty and `.`
/// components vanish, `..` removes the component before it (at the root it
/// vanishes; in a relative path with nothing to remove it stays).
pub open spec fn clean_step(acc: Seq<Seq<u8>>, c: Seq<u8>, absolute: bool) -> Seq<Seq<u8>> {
    if c.len() == 0 || is_dot(c) {
        acc
    } else if is_dot_dot(c) {
        if acc.len() > 0 && !is_dot_dot(acc.last()) {
            acc.drop_last()
        } else if absolute {
            acc
        } else {
            acc.push(c)
        }
    } else {
        acc.push(c)
    }
}

/// The cleaned components of the complete components of `p`, and the
/// component still being read.
pub open spec fn clean_scan(p: Seq<u8>, absolute: bool) -> (Seq<Seq<u8>>, Seq<u8>)
    decreases p.len(),
{
    if p.len() == 0 {
        (Seq::empty(), Seq::empty())
    } else {
        let (acc, cur) = clean_scan(p.drop_last(), absolute);
        if p.last() == SLASH {
            (clean_step(acc, cur, absolute), Seq::empty())
        } else {
            (acc, cur.push(p.last()))
        }
    }
}

/// The components of `p` once cleaned.
pub open spec fn clean_components(p: Seq<u8>) -> Seq<Seq<u8>> {
    let absolute = p.len() > 0 && p[0] == SLASH;
    let (acc, cur) = clean_scan(p, absolute);
    clean_step(acc, cur, absolute)
}

/// Components joined with `/`.
pub open spec fn join_components(c: Seq<Seq<u8>>) -> Seq<u8>
    decreases c.len(),
{
    if c.len() == 0 {
        Seq::empty()
    } else if c.len() == 1 {
        c[0]
    } else {
        join_components(c.drop_last()) + seq![SLASH] + c.last()
    }
}

/// The lexically cleaned form of a path: no empty or `.` components, each
/// `..` resolved against the component before it, `.` for an empty result.
pub open spec fn clean_path(p: Seq<u8>) -> Seq<u8> {
    let absolute = p.len() > 0 && p[0] == SLASH;
    let joined = join_components(clean_components(p));
    if absolute {
        seq![SLASH] + joined
    } else if joined.len() == 0 {
        seq![DOT]
    } else {
        joined
    }
}

/// `path` taken relative to `dir`, unless it is absolute.
pub open spec fn join_path(dir: Seq<u8>, path: Seq<u8>) -> Seq<u8> {
    if path.len() > 0 && path[0] == SLASH {
        path
    } else {
        dir + seq![SLASH] + path
    }
}

pub(crate) fn bytes_eq_dot(c: &Vec<u8>) -> (r: bool)
    ensures
        r == is_dot(c@),
{
    if c.len() == 1 && c[0] == DOT {
        assert(c@ =~= seq![DOT]);
        true
    } else {
        false
    }
}

pub(crate) fn bytes_eq_dot_dot(c: &Vec<u8>) -> (r: bool)
    ensures
        r == is_dot_dot(c@),
{
    if c.len() == 2 && c[0] == DOT && c[1] == DOT {
        assert(c@ =~= seq![DOT, DOT]);
        true
    } else {
        false
    }
}

fn step(acc: &mut Vec<Vec<u8>>, c: Vec<u8>, absolute: bool)
    ensures
        comps_view(final(acc)@) == clean_step(comps_view(old(acc)@), c@, absolute),
{
    let ghost before = comps_view(acc@);
    if c.len() == 0 || bytes_eq_dot(&c) {
    } else if bytes_eq_dot_dot(&c) {
        if acc.len() > 0 && !bytes_eq_dot_dot(&acc[acc.len() - 1]) {
            acc.pop();
            assert(comps_view(acc@) =~= before.drop_last());
        } else if absolute {
        } else {
            acc.push(c);
            assert(comps_view(acc@) =~= before.push(c@));
        }
    } else {
        acc.push(c);
        assert(comps_view(acc@) =~= before.push(c@));
    }
}

pub open spec fn comps_view(c: Seq<Vec<u8>>) -> Seq<Seq<u8>> {
    c.map_values(|x: Vec<u8>| x@)
}

/// Lexically cleans a path (see `clean_path`).
pub fn clean(p: &Vec<u8>) -> (r: Vec<u8>)
    ensures
        r@ == clean_path(p@),
{
    let absolute = p.len() > 0 && p[0] == SLASH;
    let mut acc: Vec<Vec<u8>> = Vec::new();
    let mut cur: Vec<u8> = Vec::new();
    let mut i: usize = 0;
    while i < p.len()
        invariant
            i <= p.len(),
            absolute == (p@.len() > 0 && p@[0] == SLASH),
            (comps_view(acc@), cur@) == clean_scan(p@.take(i as int), absolute),
        decreases p.len() - i,
    {
        assert(p@.take(i + 1).drop_last() =~= p@.take(i as int));
        if p[i] == SLASH {
            let c = cur;
            cur = Vec::new();
            step(&mut acc, c, absolute);
        } else {
            cur.push(p[i]);
        }
        i = i + 1;
    }
    assert(p@.take(i as int) =~= p@);
    step(&mut acc, cur, absolute);
    let ghost comps = comps_view(acc@);
    let mut out: Vec<u8> = Vec::new();
    if absolute {
        out.push(SLASH);
    }
    let ghost prefix = out@;
    let mut k: usize = 0;
    while k < acc.len()
        invariant
            k <= acc.len(),
            comps == comps_view(acc@),
            out@ == prefix + join_components(comps.take(k as int)),
        decreases acc.len() - k,
    {
        if k > 0 {
            out.push(SLASH);
        }
        let c = &acc[k];
        let ghost mid = out@;
        let mut j: usize = 0;
        while j < c.len()
            invariant
                j <= c.len(),
                out@ == mid + c@.take(j as int),
            decreases c.len() - j,
        {
            out.push(c[j]);
            j = j + 1;
            assert(out@ =~= mid + c@.take(j as int));
        }
        assert(c@.take(j as int) =~= c@);
        k = k + 1;
        assert(comps.take(k as int).drop_last() =~= comps.take(k - 1));
        if k == 1 {
            assert(out@ =~= prefix + join_components(comps.take(k as int)));
        } else {
            assert(out@ =~= prefix + join_components(comps.take(k as int)));
        }
    }
    assert(comps.take(k as int) =~= comps);
    if !absolute && out.len() == 0 {
        out.push(DOT);
        assert(out@ =~= seq![DOT]);
    } else {
        assert(out@ =~= clean_path(p@));
    }
    out
}

pub struct Env {
    pub args: Vec<String>,
    pub dir: Vec<u8>,
    pub out_style: Style,
    pub out_is_term: bool,
    pub err_style: Style,
    pub err_is_term: bool,
}

impl Env {
    pub fn new(
        dir: Vec<u8>,
        out_style: Style,
        out_is_term: bool,
        err_style: Style,
        err_is_term: bool,
        args: Vec<String>,
    ) -> (r: Env)
        ensures
            r.dir@ == dir@,
            r.out_style == out_style,
            r.out_is_term == out_is_term,
            r.err_style == err_style,
            r.err_is_term == err_is_term,
            r.args@ == args@,
    {
        Env { args, dir, out_style, out_is_term, err_style, err_is_term }
    }

    /// The working directory.
    pub fn dir(&self) -> (r: &Vec<u8>)
        ensures
            r@ == self.dir@,
    {
        &self.dir
    }

    /// The command-line arguments, program name first.
    pub fn args(&self) -> (r: &Vec<String>)
        ensures
            r@ == self.args@,
    {
        &self.args
    }

    /// `path` taken relative to the working directory, then cleaned.
    pub fn resolve(&self, path: &Vec<u8>) -> (r: Vec<u8>)
        ensures
            r@ == clean_path(join_path(self.dir@, path@)),
    {
        let joined: Vec<u8> = if path.len() > 0 && path[0] == SLASH {
            copy(path)
        } else {
            let mut j = copy(&self.dir);
            j.push(SLASH);
            let mut i: usize = 0;
            let ghost start = j@;
            while i < path.len()
                invariant
                    i <= path.len(),
                    j@ == start + path@.take(i as int),
                decreases path.len() - i,
            {
                j.push(path[i]);
                i = i + 1;
                assert(j@ =~= start + path@.take(i as int));
            }
            assert(path@.take(i as int) =~= path@);
            assert(j@ =~= self.dir@ + seq![SLASH] + path@);
            j
        };
        assert(joined@ == join_path(self.dir@, path@));
        clean(&joined)
    }

    pub fn out_is_term(&self) -> (r: bool)
        ensures
            r == self.out_is_term,
    {
        self.out_is_term
    }

    pub fn out_style(&self) -> (r: Style)
        ensures
            r == self.out_style,
    {
        self.out_style
    }

    pub fn err_is_term(&self) -> (r: bool)
        ensures
            r == self.err_is_term,
    {
        self.err_is_term
    }

    pub fn err_style(&self) -> (r: Style)
        ensures
            r == self.err_style,
    {
        self.err_style
    }
}

fn copy(b: &Vec<u8>) -> (r: Vec<u8>)
    ensures
        r@ == b@,
{
    let mut r: Vec<u8> = Vec::new();
    let mut i: usize = 0;
    while i < b.len()
        invariant
            i <= b.len(),
            r@ == b@.take(i as int),
        decreases b.len() - i,
    {
        r.push(b[i]);
        i = i + 1;
        assert(r@ =~= b@.take(i as int));
    }
    assert(b@.take(i as int) =~= b@);
    r
}

} // verus!

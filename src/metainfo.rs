//! The metainfo model and its canonical encoding.
use vstd::prelude::*;
use vstd::utf8::{decode_utf8, encode_utf8, valid_utf8};
use crate::bencode::{
    enc,
    enc_bytes,
    enc_dict,
    enc_int,
    enc_list,
    keys_ascending,
    wf,
    wf_dict,
    wf_list,
    fits,
    fits_dict,
    fits_list,
    canonical,
    Value,
    decode,
    encode,
    TAG_DICT,
    TAG_END,
    TAG_LIST,
};
use crate::keys::{
    key,
    key_bytes,
    lemma_keys_ascending,
    listed_before,
    KEY_ANNOUNCE,
    KEY_ANNOUNCE_LIST,
    KEY_COMMENT,
    KEY_CREATED_BY,
    KEY_CREATION_DATE,
    KEY_ENCODING,
    KEY_FILES,
    KEY_HTTP_SEEDS,
    KEY_INFO,
    KEY_LENGTH,
    KEY_MD5SUM,
    KEY_NAME,
    KEY_NODES,
    KEY_PATH,
    KEY_PIECES,
    KEY_PIECE_LENGTH,
    KEY_PRIVATE,
    KEY_SOURCE,
};
use crate::md5_digest::{lower_hex, Md5Digest};
use crate::error::Error;
use crate::env::{bytes_eq_dot, bytes_eq_dot_dot, is_dot, is_dot_dot};
use crate::hasher::{digests_view, piece_hashes, sha1_digest, sha1_of, DIGEST_LEN};

verus! {

/// One file of a multi-file torrent.
#[derive(Debug, PartialEq, Eq)]
pub struct FileInfo {
    pub length: u64,
    /// Path components below the torrent's directory.
    pub path: Vec<String>,
    pub md5sum: Option<Md5Digest>,
}

#[derive(Debug, PartialEq, Eq)]
pub enum Mode {
    Single { length: u64, md5sum: Option<Md5Digest> },
    Multi { files: Vec<FileInfo> },
}

#[derive(Debug, PartialEq, Eq)]
pub struct Info {
    pub private: Option<bool>,
    pub piece_length: u64,
    pub name: String,
    pub source: Option<String>,
    /// One 20-byte SHA-1 digest per piece.
    pub pieces: Vec<Vec<u8>>,
    pub mode: Mode,
}

/// A DHT node: host and port.
#[derive(Debug, PartialEq, Eq)]
pub struct Node {
    pub host: String,
    pub port: u16,
}

#[derive(Debug, PartialEq, Eq)]
pub struct Metainfo {
    pub announce: Option<String>,
    pub announce_list: Option<Vec<Vec<String>>>,
    pub comment: Option<String>,
    pub created_by: Option<String>,
    pub creation_date: Option<u64>,
    pub encoding: Option<String>,
    pub info: Info,
    pub nodes: Option<Vec<Node>>,
    pub http_seeds: Option<Vec<String>>,
}

/// Every digest is a 20-byte SHA-1 result.
pub open spec fn digests_sized(p: Seq<Vec<u8>>) -> bool {
    forall|k: int| 0 <= k < p.len() ==> (#[trigger] p[k])@.len() == DIGEST_LEN
}

/// A path component a torrent may hold: not empty, not `.`, not `..`.
pub open spec fn component_ok(c: String) -> bool {
    let b = encode_utf8(c@);
    b.len() > 0 && !is_dot(b) && !is_dot_dot(b)
}

/// A file entry with a non-empty path of valid components.
pub open spec fn file_ok(f: FileInfo) -> bool {
    f.path@.len() > 0 && forall|k: int| 0 <= k < f.path@.len() ==> component_ok(#[trigger] f.path@[k])
}

/// A well-formed `info`: a positive piece length, 20-byte digests, a
/// non-empty name, and well-formed file entries.
pub open spec fn wf_info(i: Info) -> bool {
    &&& i.piece_length > 0
    &&& digests_sized(i.pieces@)
    &&& encode_utf8(i.name@).len() > 0
    &&& i.mode matches Mode::Multi { files } ==> forall|k: int|
        0 <= k < files@.len() ==> file_ok(#[trigger] files@[k])
}

/// A well-formed torrent: a well-formed `info`, and a tracker, either as
/// `announce` or as a non-empty `announce-list`.
pub open spec fn wf_metainfo(m: Metainfo) -> bool {
    &&& wf_info(m.info)
    &&& (m.announce is Some || (m.announce_list matches Some(l) && l@.len() > 0))
}

/// Whether `c` is a path component a torrent may hold.
pub fn component_valid(c: &String) -> (r: bool)
    ensures
        r == component_ok(*c),
{
    let b = copy_bytes(c.as_str().as_bytes());
    b.len() > 0 && !bytes_eq_dot(&b) && !bytes_eq_dot_dot(&b)
}

pub open spec fn enc_str(s: Seq<char>) -> Seq<u8> {
    enc_bytes(encode_utf8(s))
}

/// A key followed by an encoded value.
pub open spec fn field(k: usize, v: Seq<u8>) -> Seq<u8> {
    enc_bytes(key_bytes(k)) + v
}

pub open spec fn opt_str_field(k: usize, s: Option<String>) -> Seq<u8> {
    match s {
        Some(s) => field(k, enc_str(s@)),
        None => Seq::empty(),
    }
}

pub open spec fn opt_md5_field(d: Option<Md5Digest>) -> Seq<u8> {
    match d {
        Some(d) => field(KEY_MD5SUM, enc_bytes(lower_hex(d.bytes@))),
        None => Seq::empty(),
    }
}

pub open spec fn wrap_list(items: Seq<u8>) -> Seq<u8> {
    seq![TAG_LIST] + items + seq![TAG_END]
}

pub open spec fn wrap_dict(items: Seq<u8>) -> Seq<u8> {
    seq![TAG_DICT] + items + seq![TAG_END]
}

pub open spec fn enc_strs(s: Seq<String>) -> Seq<u8>
    decreases s.len(),
{
    if s.len() == 0 {
        Seq::empty()
    } else {
        enc_strs(s.drop_last()) + enc_str(s.last()@)
    }
}

pub open spec fn enc_tiers(s: Seq<Vec<String>>) -> Seq<u8>
    decreases s.len(),
{
    if s.len() == 0 {
        Seq::empty()
    } else {
        enc_tiers(s.drop_last()) + wrap_list(enc_strs(s.last()@))
    }
}

pub open spec fn enc_node(n: Node) -> Seq<u8> {
    wrap_list(enc_str(n.host@) + enc_int(n.port as int))
}

pub open spec fn enc_nodes(s: Seq<Node>) -> Seq<u8>
    decreases s.len(),
{
    if s.len() == 0 {
        Seq::empty()
    } else {
        enc_nodes(s.drop_last()) + enc_node(s.last())
    }
}

pub open spec fn enc_file(f: FileInfo) -> Seq<u8> {
    wrap_dict(field(KEY_LENGTH, enc_int(f.length as int)) + opt_md5_field(f.md5sum) + field(
        KEY_PATH,
        wrap_list(enc_strs(f.path@)),
    ))
}

pub open spec fn enc_files(s: Seq<FileInfo>) -> Seq<u8>
    decreases s.len(),
{
    if s.len() == 0 {
        Seq::empty()
    } else {
        enc_files(s.drop_last()) + enc_file(s.last())
    }
}

/// The digests one after another.
pub open spec fn flatten(s: Seq<Vec<u8>>) -> Seq<u8>
    decreases s.len(),
{
    if s.len() == 0 {
        Seq::empty()
    } else {
        flatten(s.drop_last()) + s.last()@
    }
}

pub open spec fn enc_mode(m: Mode) -> Seq<u8> {
    match m {
        Mode::Single { length, md5sum } => field(KEY_LENGTH, enc_int(length as int)) + opt_md5_field(
            md5sum,
        ),
        Mode::Multi { files } => field(KEY_FILES, wrap_list(enc_files(files@))),
    }
}

/// The canonical encoding of the `info` dictionary.
pub open spec fn enc_info(i: Info) -> Seq<u8> {
    wrap_dict(
        enc_mode(i.mode) + field(KEY_NAME, enc_str(i.name@)) + field(
            KEY_PIECE_LENGTH,
            enc_int(i.piece_length as int),
        ) + field(KEY_PIECES, enc_bytes(flatten(i.pieces@))) + match i.private {
            Some(p) => field(KEY_PRIVATE, enc_int(if p { 1 } else { 0 })),
            None => Seq::empty(),
        } + opt_str_field(KEY_SOURCE, i.source),
    )
}

/// The canonical encoding of a whole torrent file.
pub open spec fn enc_metainfo(m: Metainfo) -> Seq<u8> {
    wrap_dict(
        opt_str_field(KEY_ANNOUNCE, m.announce) + match m.announce_list {
            Some(l) => field(KEY_ANNOUNCE_LIST, wrap_list(enc_tiers(l@))),
            None => Seq::empty(),
        } + opt_str_field(KEY_COMMENT, m.comment) + opt_str_field(KEY_CREATED_BY, m.created_by)
            + match m.creation_date {
            Some(d) => field(KEY_CREATION_DATE, enc_int(d as int)),
            None => Seq::empty(),
        } + opt_str_field(KEY_ENCODING, m.encoding) + match m.http_seeds {
            Some(l) => field(KEY_HTTP_SEEDS, wrap_list(enc_strs(l@))),
            None => Seq::empty(),
        } + field(KEY_INFO, enc_info(m.info)) + match m.nodes {
            Some(l) => field(KEY_NODES, wrap_list(enc_nodes(l@))),
            None => Seq::empty(),
        },
    )
}

pub(crate) fn copy_bytes(b: &[u8]) -> (r: Vec<u8>)
    ensures
        r@ == b@,
{
    let mut r: Vec<u8> = Vec::new();
    let mut i: usize = 0;
    while i < b.len()
        invariant
            i <= b.len(),
            r@ == b@.take(i as int),
        decreases b.len() - i,
    {
        r.push(b[i]);
        i = i + 1;
        assert(r@ =~= b@.take(i as int));
    }
    assert(b@.take(i as int) =~= b@);
    r
}

fn str_value(s: &String) -> (r: Value)
    ensures
        enc(r) == enc_str(s@),
        wf(r),
        fits(r),
{
    let b = copy_bytes(s.as_str().as_bytes());
    Value::Bytes(b)
}

fn uint_value(n: u64) -> (r: Value)
    ensures
        enc(r) == enc_int(n as int),
        wf(r),
        fits(r),
{
    Value::Integer(n as i128)
}

fn str_list_value(l: &Vec<String>) -> (r: Value)
    ensures
        enc(r) == wrap_list(enc_strs(l@)),
        wf(r),
        fits(r),
{
    let mut items: Vec<Value> = Vec::new();
    let mut k: usize = 0;
    while k < l.len()
        invariant
            k <= l.len(),
            items@.len() == k,
            enc_list(items@) == enc_strs(l@.take(k as int)),
            wf_list(items@),
            fits_list(items@),
        decreases l.len() - k,
    {
        let ghost before = items@;
        items.push(str_value(&l[k]));
        k = k + 1;
        assert(items@.drop_last() =~= before);
        assert(l@.take(k as int).drop_last() =~= l@.take(k - 1));
    }
    assert(l@.take(k as int) =~= l@);
    Value::List(items)
}

/// Appends the entry for key `k`, keeping the keys ascending.
fn push_entry(
    entries: &mut Vec<(Vec<u8>, Value)>,
    prev: Ghost<usize>,
    k: usize,
    value: Value,
)
    requires
        keys_ascending(old(entries)@),
        wf_dict(old(entries)@),
        fits_dict(old(entries)@),
        wf(value),
        fits(value),
        old(entries)@.len() > 0 ==> old(entries)@.last().0@ == key_bytes(prev@) && listed_before(
            prev@,
            k,
        ),
    ensures
        keys_ascending(final(entries)@),
        wf_dict(final(entries)@),
        fits_dict(final(entries)@),
        final(entries)@.len() > 0,
        final(entries)@.last().0@ == key_bytes(k),
        enc_dict(final(entries)@) == enc_dict(old(entries)@) + field(k, enc(value)),
{
    let ghost before = entries@;
    proof {
        if before.len() > 0 {
            lemma_keys_ascending(prev@, k);
        }
    }
    entries.push((key(k), value));
    assert(entries@.drop_last() =~= before);
    assert forall|i: int| 0 < i < entries@.len() implies #[trigger] crate::bencode::lex_lt(
        entries@[i - 1].0@,
        entries@[i].0@,
    ) by {
        if i < before.len() {
            assert(crate::bencode::lex_lt(before[i - 1].0@, before[i].0@));
        }
    }
    assert(enc_dict(entries@) =~= enc_dict(before) + field(k, enc(entries@.last().1)));
}

fn tiers_value(l: &Vec<Vec<String>>) -> (r: Value)
    ensures
        enc(r) == wrap_list(enc_tiers(l@)),
        wf(r),
        fits(r),
{
    let mut items: Vec<Value> = Vec::new();
    let mut k: usize = 0;
    while k < l.len()
        invariant
            k <= l.len(),
            items@.len() == k,
            enc_list(items@) == enc_tiers(l@.take(k as int)),
            wf_list(items@),
            fits_list(items@),
        decreases l.len() - k,
    {
        let ghost before = items@;
        items.push(str_list_value(&l[k]));
        k = k + 1;
        assert(items@.drop_last() =~= before);
        assert(l@.take(k as int).drop_last() =~= l@.take(k - 1));
    }
    assert(l@.take(k as int) =~= l@);
    Value::List(items)
}

fn node_value(n: &Node) -> (r: Value)
    ensures
        enc(r) == enc_node(*n),
        wf(r),
        fits(r),
{
    let mut items: Vec<Value> = Vec::new();
    let host = str_value(&n.host);
    let port = uint_value(n.port as u64);
    let ghost (h, p) = (host, port);
    items.push(host);
    items.push(port);
    assert(items@.drop_last().drop_last() =~= Seq::<Value>::empty());
    assert(items@.drop_last() =~= seq![h]);
    proof {
        reveal_with_fuel(enc_list, 3);
        reveal_with_fuel(wf_list, 3);
        reveal_with_fuel(fits_list, 3);
    }
    assert(enc_list(items@) =~= enc(h) + enc(p));
    assert(wf_list(items@.drop_last().drop_last()));
    assert(wf_list(items@.drop_last()));
    assert(wf_list(items@));
    assert(fits_list(items@.drop_last().drop_last()));
    assert(fits_list(items@.drop_last()));
    assert(fits_list(items@));
    Value::List(items)
}

fn nodes_value(l: &Vec<Node>) -> (r: Value)
    ensures
        enc(r) == wrap_list(enc_nodes(l@)),
        wf(r),
        fits(r),
{
    let mut items: Vec<Value> = Vec::new();
    let mut k: usize = 0;
    while k < l.len()
        invariant
            k <= l.len(),
            items@.len() == k,
            enc_list(items@) == enc_nodes(l@.take(k as int)),
            wf_list(items@),
            fits_list(items@),
        decreases l.len() - k,
    {
        let ghost before = items@;
        items.push(node_value(&l[k]));
        k = k + 1;
        assert(items@.drop_last() =~= before);
        assert(l@.take(k as int).drop_last() =~= l@.take(k - 1));
    }
    assert(l@.take(k as int) =~= l@);
    Value::List(items)
}

fn md5_value(d: &Md5Digest) -> (r: Value)
    ensures
        enc(r) == enc_bytes(lower_hex(d.bytes@)),
        wf(r),
        fits(r),
{
    Value::Bytes(d.to_hex())
}

fn dict_value(entries: Vec<(Vec<u8>, Value)>) -> (r: Value)
    requires
        keys_ascending(entries@),
        wf_dict(entries@),
        fits_dict(entries@),
    ensures
        enc(r) == wrap_dict(enc_dict(entries@)),
        wf(r),
        fits(r),
{
    Value::Dict(entries)
}

fn file_value(f: &FileInfo) -> (r: Value)
    ensures
        enc(r) == enc_file(*f),
        wf(r),
        fits(r),
{
    let mut entries: Vec<(Vec<u8>, Value)> = Vec::new();
    push_entry(&mut entries, Ghost(KEY_LENGTH), KEY_LENGTH, uint_value(f.length));
    let ghost mut prev = KEY_LENGTH;
    match &f.md5sum {
        Some(d) => {
            push_entry(&mut entries, Ghost(prev), KEY_MD5SUM, md5_value(d));
            proof {
                prev = KEY_MD5SUM;
            }
        },
        None => {},
    }
    push_entry(&mut entries, Ghost(prev), KEY_PATH, str_list_value(&f.path));
    assert(enc_dict(entries@) =~= field(KEY_LENGTH, enc_int(f.length as int)) + opt_md5_field(
        f.md5sum,
    ) + field(KEY_PATH, wrap_list(enc_strs(f.path@))));
    dict_value(entries)
}

fn files_value(l: &Vec<FileInfo>) -> (r: Value)
    ensures
        enc(r) == wrap_list(enc_files(l@)),
        wf(r),
        fits(r),
{
    let mut items: Vec<Value> = Vec::new();
    let mut k: usize = 0;
    while k < l.len()
        invariant
            k <= l.len(),
            items@.len() == k,
            enc_list(items@) == enc_files(l@.take(k as int)),
            wf_list(items@),
            fits_list(items@),
        decreases l.len() - k,
    {
        let ghost before = items@;
        items.push(file_value(&l[k]));
        k = k + 1;
        assert(items@.drop_last() =~= before);
        assert(l@.take(k as int).drop_last() =~= l@.take(k - 1));
    }
    assert(l@.take(k as int) =~= l@);
    Value::List(items)
}

fn pieces_value(l: &Vec<Vec<u8>>) -> (r: Value)
    ensures
        enc(r) == enc_bytes(flatten(l@)),
        wf(r),
        fits(r),
{
    let mut b: Vec<u8> = Vec::new();
    let mut k: usize = 0;
    while k < l.len()
        invariant
            k <= l.len(),
            b@ == flatten(l@.take(k as int)),
        decreases l.len() - k,
    {
        let d = &l[k];
        let mut i: usize = 0;
        let ghost start = b@;
        while i < d.len()
            invariant
                i <= d.len(),
                b@ == start + d@.take(i as int),
            decreases d.len() - i,
        {
            b.push(d[i]);
            i = i + 1;
            assert(b@ =~= start + d@.take(i as int));
        }
        assert(d@.take(i as int) =~= d@);
        k = k + 1;
        assert(l@.take(k as int).drop_last() =~= l@.take(k - 1));
    }
    assert(l@.take(k as int) =~= l@);
    Value::Bytes(b)
}

impl Info {
    /// The `info` dictionary, keys ascending.
    pub fn to_value(&self) -> (r: Value)
        ensures
            enc(r) == enc_info(*self),
            wf(r),
            fits(r),
        fits(r),
    {
        let mut entries: Vec<(Vec<u8>, Value)> = Vec::new();
        let ghost mut prev: usize = 0;
        match &self.mode {
            Mode::Single { length, md5sum } => {
                push_entry(&mut entries, Ghost(prev), KEY_LENGTH, uint_value(*length));
                proof {
                    prev = KEY_LENGTH;
                }
                match md5sum {
                    Some(d) => {
                        push_entry(&mut entries, Ghost(prev), KEY_MD5SUM, md5_value(d));
                        proof {
                            prev = KEY_MD5SUM;
                        }
                    },
                    None => {},
                }
            },
            Mode::Multi { files } => {
                push_entry(&mut entries, Ghost(prev), KEY_FILES, files_value(files));
                proof {
                    prev = KEY_FILES;
                }
            },
        }
        assert(enc_dict(entries@) =~= enc_mode(self.mode));
        push_entry(&mut entries, Ghost(prev), KEY_NAME, str_value(&self.name));
        push_entry(&mut entries, Ghost(KEY_NAME), KEY_PIECE_LENGTH, uint_value(self.piece_length));
        push_entry(&mut entries, Ghost(KEY_PIECE_LENGTH), KEY_PIECES, pieces_value(&self.pieces));
        proof {
            prev = KEY_PIECES;
        }
        match self.private {
            Some(p) => {
                let v: u64 = if p {
                    1
                } else {
                    0
                };
                push_entry(&mut entries, Ghost(prev), KEY_PRIVATE, uint_value(v));
                proof {
                    prev = KEY_PRIVATE;
                }
            },
            None => {},
        }
        match &self.source {
            Some(s) => {
                push_entry(&mut entries, Ghost(prev), KEY_SOURCE, str_value(s));
            },
            None => {},
        }
        assert(enc_dict(entries@) =~= enc_mode(self.mode) + field(KEY_NAME, enc_str(self.name@))
            + field(KEY_PIECE_LENGTH, enc_int(self.piece_length as int)) + field(
            KEY_PIECES,
            enc_bytes(flatten(self.pieces@)),
        ) + match self.private {
            Some(p) => field(KEY_PRIVATE, enc_int(if p { 1 } else { 0 })),
            None => Seq::empty(),
        } + opt_str_field(KEY_SOURCE, self.source));
        dict_value(entries)
    }
}

impl Metainfo {
    /// The whole torrent as one dictionary, keys ascending at every level.
    pub fn to_value(&self) -> (r: Value)
        ensures
            enc(r) == enc_metainfo(*self),
            wf(r),
            fits(r),
        fits(r),
    {
        let mut entries: Vec<(Vec<u8>, Value)> = Vec::new();
        let ghost mut prev: usize = 0;
        match &self.announce {
            Some(s) => {
                push_entry(&mut entries, Ghost(prev), KEY_ANNOUNCE, str_value(s));
                proof { prev = KEY_ANNOUNCE; }
            },
            None => {},
        }
        match &self.announce_list {
            Some(l) => {
                push_entry(&mut entries, Ghost(prev), KEY_ANNOUNCE_LIST, tiers_value(l));
                proof { prev = KEY_ANNOUNCE_LIST; }
            },
            None => {},
        }
        match &self.comment {
            Some(s) => {
                push_entry(&mut entries, Ghost(prev), KEY_COMMENT, str_value(s));
                proof { prev = KEY_COMMENT; }
            },
            None => {},
        }
        match &self.created_by {
            Some(s) => {
                push_entry(&mut entries, Ghost(prev), KEY_CREATED_BY, str_value(s));
                proof { prev = KEY_CREATED_BY; }
            },
            None => {},
        }
        match self.creation_date {
            Some(d) => {
                push_entry(&mut entries, Ghost(prev), KEY_CREATION_DATE, uint_value(d));
                proof { prev = KEY_CREATION_DATE; }
            },
            None => {},
        }
        match &self.encoding {
            Some(s) => {
                push_entry(&mut entries, Ghost(prev), KEY_ENCODING, str_value(s));
                proof { prev = KEY_ENCODING; }
            },
            None => {},
        }
        match &self.http_seeds {
            Some(l) => {
                push_entry(&mut entries, Ghost(prev), KEY_HTTP_SEEDS, str_list_value(l));
                proof { prev = KEY_HTTP_SEEDS; }
            },
            None => {},
        }
        push_entry(&mut entries, Ghost(prev), KEY_INFO, self.info.to_value());
        match &self.nodes {
            Some(l) => {
                push_entry(&mut entries, Ghost(KEY_INFO), KEY_NODES, nodes_value(l));
            },
            None => {},
        }
        assert(enc_dict(entries@) =~= opt_str_field(KEY_ANNOUNCE, self.announce) + match self.announce_list {
            Some(l) => field(KEY_ANNOUNCE_LIST, wrap_list(enc_tiers(l@))),
            None => Seq::empty(),
        } + opt_str_field(KEY_COMMENT, self.comment) + opt_str_field(KEY_CREATED_BY, self.created_by)
            + match self.creation_date {
            Some(d) => field(KEY_CREATION_DATE, enc_int(d as int)),
            None => Seq::empty(),
        } + opt_str_field(KEY_ENCODING, self.encoding) + match self.http_seeds {
            Some(l) => field(KEY_HTTP_SEEDS, wrap_list(enc_strs(l@))),
            None => Seq::empty(),
        } + field(KEY_INFO, enc_info(self.info)) + match self.nodes {
            Some(l) => field(KEY_NODES, wrap_list(enc_nodes(l@))),
            None => Seq::empty(),
        });
        dict_value(entries)
    }

    /// The bytes of the torrent file.
    pub fn serialize(&self) -> (r: Vec<u8>)
        ensures
            r@ == enc_metainfo(*self),
            canonical(r@),
    {
        let v = self.to_value();
        proof {
            crate::bencode::lemma_encoding_is_canonical(v);
        }
        encode(&v)
    }

    /// Reads a torrent file. It accepts only a canonical encoding of a
    /// well-formed torrent: what it returns serializes back to exactly
    /// `bytes`. Bytes that are not a canonical bencoding fail; a failure to
    /// decode the bencoding is reported as `BencodeDecode`, a document that
    /// does not describe a torrent as `MetainfoLoad`.
    pub fn deserialize(bytes: &Vec<u8>) -> (r: Result<Metainfo, Error>)
        ensures
            r matches Ok(m) ==> enc_metainfo(m) == bytes@ && canonical(bytes@) && wf_metainfo(m),
            r is Err ==> (r matches Err(Error::BencodeDecode { .. }) || r matches Err(
                Error::MetainfoLoad { .. },
            )),
            !canonical(bytes@) ==> r is Err,
            r matches Err(Error::BencodeDecode { .. }) ==> !canonical(bytes@),
    {
        let v = match decode(bytes) {
            Ok(v) => v,
            Err(e) => return Err(Error::BencodeDecode { position: e.position, kind: e.kind }),
        };
        let m = metainfo_from_value(&v)?;
        let out = m.serialize();
        if !crate::verify::bytes_equal(&out, bytes) {
            return Err(Error::MetainfoLoad { key: Vec::new(), path: String::new() });
        }
        assert(canonical(bytes@));
        Ok(m)
    }
}

impl Metainfo {
    /// Reads the torrent file at `path` from its bytes: `deserialize`, with
    /// the path added to a `MetainfoLoad` error.
    pub fn load(path: &str, bytes: &Vec<u8>) -> (r: Result<Metainfo, Error>)
        ensures
            r matches Ok(m) ==> enc_metainfo(m) == bytes@ && canonical(bytes@) && wf_metainfo(m),
            !canonical(bytes@) ==> r is Err,
            r matches Err(Error::BencodeDecode { .. }) ==> !canonical(bytes@),
            r matches Err(Error::MetainfoLoad { path: p, .. }) ==> p@ == path@,
            r is Err ==> (r matches Err(Error::BencodeDecode { .. }) || r matches Err(
                Error::MetainfoLoad { .. },
            )),
    {
        match Metainfo::deserialize(bytes) {
            Ok(m) => Ok(m),
            Err(Error::MetainfoLoad { key, .. }) => Err(
                Error::MetainfoLoad { key, path: path.to_owned() },
            ),
            Err(e) => Err(e),
        }
    }
}

impl Info {
    /// The infohash: the SHA-1 digest of the `info` dictionary's encoding.
    pub fn infohash(&self) -> (r: Vec<u8>)
        ensures
            r@ == sha1_of(enc_info(*self)),
            r@.len() == DIGEST_LEN,
    {
        let b = encode(&self.to_value());
        sha1_digest(b.as_slice())
    }
}

/// Relies on `String::from_utf8`: it succeeds exactly on valid UTF-8, and the
/// string then holds the characters that the bytes encode.
#[verifier::external_body]
pub(crate) fn string_from_utf8(b: Vec<u8>) -> (r: Option<String>)
    ensures
        r is Some <==> valid_utf8(b@),
        r matches Some(s) ==> s@ == decode_utf8(b@),
{
    String::from_utf8(b).ok()
}

/// The value stored under key `k`, if there is one.
fn lookup(d: &Vec<(Vec<u8>, Value)>, k: usize) -> (r: Option<&Value>) {
    let want = key(k);
    let mut i: usize = 0;
    while i < d.len()
        invariant
            i <= d.len(),
        decreases d.len() - i,
    {
        if crate::verify::bytes_equal(&d[i].0, &want) {
            return Some(&d[i].1);
        }
        i = i + 1;
    }
    None
}

fn as_string(v: &Value) -> Option<String> {
    match v {
        Value::Bytes(b) => string_from_utf8(copy_bytes(b.as_slice())),
        _ => None,
    }
}

fn as_uint(v: &Value) -> Option<u64> {
    match v {
        Value::Integer(i) => if 0 <= *i && *i <= 0xffff_ffff_ffff_ffffi128 {
            Some(*i as u64)
        } else {
            None
        },
        _ => None,
    }
}

fn as_strings(v: &Value) -> Option<Vec<String>> {
    match v {
        Value::List(l) => {
            let mut r: Vec<String> = Vec::new();
            let mut i: usize = 0;
            while i < l.len()
                invariant
                    i <= l.len(),
                decreases l.len() - i,
            {
                match as_string(&l[i]) {
                    Some(s) => r.push(s),
                    None => return None,
                }
                i = i + 1;
            }
            Some(r)
        },
        _ => None,
    }
}

fn as_tiers(v: &Value) -> Option<Vec<Vec<String>>> {
    match v {
        Value::List(l) => {
            let mut r: Vec<Vec<String>> = Vec::new();
            let mut i: usize = 0;
            while i < l.len()
                invariant
                    i <= l.len(),
                decreases l.len() - i,
            {
                match as_strings(&l[i]) {
                    Some(s) => r.push(s),
                    None => return None,
                }
                i = i + 1;
            }
            Some(r)
        },
        _ => None,
    }
}

fn as_nodes(v: &Value) -> Option<Vec<Node>> {
    match v {
        Value::List(l) => {
            let mut r: Vec<Node> = Vec::new();
            let mut i: usize = 0;
            while i < l.len()
                invariant
                    i <= l.len(),
                decreases l.len() - i,
            {
                match &l[i] {
                    Value::List(pair) => {
                        if pair.len() != 2 {
                            return None;
                        }
                        let host = as_string(&pair[0])?;
                        let port = as_uint(&pair[1])?;
                        if port > 0xffff {
                            return None;
                        }
                        r.push(Node { host, port: port as u16 });
                    },
                    _ => return None,
                }
                i = i + 1;
            }
            Some(r)
        },
        _ => None,
    }
}

fn as_md5(v: &Value) -> Option<Md5Digest> {
    match v {
        Value::Bytes(b) => Md5Digest::from_lower_hex(b),
        _ => None,
    }
}

fn as_pieces(v: &Value) -> (r: Option<Vec<Vec<u8>>>)
    ensures
        r matches Some(p) ==> digests_sized(p@),
{
    match v {
        Value::Bytes(b) => {
            if b.len() % DIGEST_LEN != 0 {
                return None;
            }
            let mut r: Vec<Vec<u8>> = Vec::new();
            let mut i: usize = 0;
            while i < b.len()
                invariant
                    i <= b.len(),
                    b.len() % DIGEST_LEN == 0,
                    i % DIGEST_LEN == 0,
                    digests_sized(r@),
                decreases b.len() - i,
            {
                let mut d: Vec<u8> = Vec::new();
                let mut j: usize = 0;
                while j < DIGEST_LEN
                    invariant
                        j <= DIGEST_LEN,
                        i + DIGEST_LEN <= b.len(),
                        d@.len() == j,
                    decreases DIGEST_LEN - j,
                {
                    d.push(b[i + j]);
                    j = j + 1;
                }
                r.push(d);
                i = i + DIGEST_LEN;
            }
            Some(r)
        },
        _ => None,
    }
}

fn missing<T>(k: usize) -> (r: Result<T, Error>)
    ensures
        r matches Err(Error::MetainfoLoad { .. }),
{
    Err(Error::MetainfoLoad { key: key(k), path: String::new() })
}

fn file_from_value(v: &Value) -> (r: Option<FileInfo>)
    ensures
        r matches Some(f) ==> file_ok(f),
{
    match v {
        Value::Dict(d) => {
            let length = as_uint(lookup(d, KEY_LENGTH)?)?;
            let path = as_strings(lookup(d, KEY_PATH)?)?;
            if path.len() == 0 {
                return None;
            }
            let mut k: usize = 0;
            while k < path.len()
                invariant
                    k <= path.len(),
                    forall|j: int| 0 <= j < k ==> component_ok(#[trigger] path@[j]),
                decreases path.len() - k,
            {
                if !component_valid(&path[k]) {
                    return None;
                }
                k = k + 1;
            }
            let md5sum = match lookup(d, KEY_MD5SUM) {
                Some(m) => Some(as_md5(m)?),
                None => None,
            };
            Some(FileInfo { length, path, md5sum })
        },
        _ => None,
    }
}

fn info_from_value(v: &Value) -> (r: Result<Info, Error>)
    ensures
        r is Err ==> r matches Err(Error::MetainfoLoad { .. }),
        r matches Ok(i) ==> wf_info(i),
{
    let d = match v {
        Value::Dict(d) => d,
        _ => return missing(KEY_INFO),
    };
    let mode = match lookup(d, KEY_FILES) {
        Some(Value::List(l)) => {
            let mut files: Vec<FileInfo> = Vec::new();
            let mut i: usize = 0;
            while i < l.len()
                invariant
                    i <= l.len(),
                    forall|k: int| 0 <= k < files@.len() ==> file_ok(#[trigger] files@[k]),
                decreases l.len() - i,
            {
                match file_from_value(&l[i]) {
                    Some(f) => files.push(f),
                    None => return missing(KEY_FILES),
                }
                i = i + 1;
            }
            Mode::Multi { files }
        },
        Some(_) => return missing(KEY_FILES),
        None => {
            let length = match lookup(d, KEY_LENGTH) {
                Some(x) => match as_uint(x) {
                    Some(n) => n,
                    None => return missing(KEY_LENGTH),
                },
                None => return missing(KEY_LENGTH),
            };
            let md5sum = match lookup(d, KEY_MD5SUM) {
                Some(m) => match as_md5(m) {
                    Some(x) => Some(x),
                    None => return missing(KEY_MD5SUM),
                },
                None => None,
            };
            Mode::Single { length, md5sum }
        },
    };
    let name = match lookup(d, KEY_NAME) {
        Some(x) => match as_string(x) {
            Some(s) => s,
            None => return missing(KEY_NAME),
        },
        None => return missing(KEY_NAME),
    };
    if copy_bytes(name.as_str().as_bytes()).len() == 0 {
        return missing(KEY_NAME);
    }
    let piece_length = match lookup(d, KEY_PIECE_LENGTH) {
        Some(x) => match as_uint(x) {
            Some(n) => n,
            None => return missing(KEY_PIECE_LENGTH),
        },
        None => return missing(KEY_PIECE_LENGTH),
    };
    if piece_length == 0 {
        return missing(KEY_PIECE_LENGTH);
    }
    let pieces = match lookup(d, KEY_PIECES) {
        Some(x) => match as_pieces(x) {
            Some(p) => p,
            None => return missing(KEY_PIECES),
        },
        None => return missing(KEY_PIECES),
    };
    let private = match lookup(d, KEY_PRIVATE) {
        Some(x) => match as_uint(x) {
            Some(0) => Some(false),
            Some(1) => Some(true),
            _ => return missing(KEY_PRIVATE),
        },
        None => None,
    };
    let source = match lookup(d, KEY_SOURCE) {
        Some(x) => match as_string(x) {
            Some(s) => Some(s),
            None => return missing(KEY_SOURCE),
        },
        None => None,
    };
    Ok(Info { private, piece_length, name, source, pieces, mode })
}

fn opt_string(d: &Vec<(Vec<u8>, Value)>, k: usize) -> (r: Result<Option<String>, Error>)
    ensures
        r is Err ==> r matches Err(Error::MetainfoLoad { .. }),
{
    match lookup(d, k) {
        Some(x) => match as_string(x) {
            Some(s) => Ok(Some(s)),
            None => missing(k),
        },
        None => Ok(None),
    }
}

/// Reads the torrent's fields from a decoded document; keys it does not
/// know are left out.
fn metainfo_from_value(v: &Value) -> (r: Result<Metainfo, Error>)
    ensures
        r is Err ==> r matches Err(Error::MetainfoLoad { .. }),
        r matches Ok(m) ==> wf_metainfo(m),
{
    let d = match v {
        Value::Dict(d) => d,
        _ => return missing(KEY_INFO),
    };
    let info = match lookup(d, KEY_INFO) {
        Some(x) => info_from_value(x)?,
        None => return missing(KEY_INFO),
    };
    let announce = opt_string(d, KEY_ANNOUNCE)?;
    let announce_list = match lookup(d, KEY_ANNOUNCE_LIST) {
        Some(x) => match as_tiers(x) {
            Some(t) => Some(t),
            None => return missing(KEY_ANNOUNCE_LIST),
        },
        None => None,
    };
    let comment = opt_string(d, KEY_COMMENT)?;
    let created_by = opt_string(d, KEY_CREATED_BY)?;
    let creation_date = match lookup(d, KEY_CREATION_DATE) {
        Some(x) => match as_uint(x) {
            Some(n) => Some(n),
            None => return missing(KEY_CREATION_DATE),
        },
        None => None,
    };
    let encoding = opt_string(d, KEY_ENCODING)?;
    let http_seeds = match lookup(d, KEY_HTTP_SEEDS) {
        Some(x) => match as_strings(x) {
            Some(t) => Some(t),
            None => return missing(KEY_HTTP_SEEDS),
        },
        None => None,
    };
    let nodes = match lookup(d, KEY_NODES) {
        Some(x) => match as_nodes(x) {
            Some(t) => Some(t),
            None => return missing(KEY_NODES),
        },
        None => None,
    };
    let has_tiers = match &announce_list {
        Some(l) => l.len() > 0,
        None => false,
    };
    if announce.is_none() && !has_tiers {
        return missing(KEY_ANNOUNCE);
    }
    Ok(Metainfo {
        announce,
        announce_list,
        comment,
        created_by,
        creation_date,
        encoding,
        info,
        nodes,
        http_seeds,
    })
}

/// The flattened digests depend only on what each digest holds.
pub proof fn lemma_flatten_views(a: Seq<Vec<u8>>, b: Seq<Vec<u8>>)
    requires
        digests_view(a) == digests_view(b),
    ensures
        flatten(a) == flatten(b),
    decreases a.len(),
{
    assert(a.len() == digests_view(a).len() && b.len() == digests_view(b).len());
    if a.len() > 0 {
        assert(digests_view(a.drop_last()) =~= digests_view(a).drop_last());
        assert(digests_view(b.drop_last()) =~= digests_view(b).drop_last());
        assert(a.last()@ == digests_view(a)[a.len() - 1]);
        assert(b.last()@ == digests_view(b)[b.len() - 1]);
        lemma_flatten_views(a.drop_last(), b.drop_last());
    }
}

/// Two torrents hashed from the same concatenated content with the same
/// piece length, and with the same file layout (name, mode, flags), have the
/// same infohash.
pub proof fn lemma_same_content_same_infohash(i1: Info, i2: Info, c1: Seq<u8>, c2: Seq<u8>)
    requires
        i1.piece_length > 0,
        c1 == c2,
        i1.piece_length == i2.piece_length,
        i1.name@ == i2.name@,
        i1.private == i2.private,
        opt_str_field(KEY_SOURCE, i1.source) == opt_str_field(KEY_SOURCE, i2.source),
        enc_mode(i1.mode) == enc_mode(i2.mode),
        digests_view(i1.pieces@) == piece_hashes(c1, i1.piece_length as nat),
        digests_view(i2.pieces@) == piece_hashes(c2, i2.piece_length as nat),
    ensures
        sha1_of(enc_info(i1)) == sha1_of(enc_info(i2)),
{
    lemma_flatten_views(i1.pieces@, i2.pieces@);
}

} // verus!

//! The keys of the torrent dictionaries, and the order that the encoding
//! relies on: within each dictionary they are listed in ascending byte order.
use vstd::prelude::*;
use crate::bencode::lex_lt;

verus! {
/// `announce`
pub const KEY_ANNOUNCE: usize = 0;
/// `announce-list`
pub const KEY_ANNOUNCE_LIST: usize = 1;
/// `comment`
pub const KEY_COMMENT: usize = 2;
/// `created by`
pub const KEY_CREATED_BY: usize = 3;
/// `creation date`
pub const KEY_CREATION_DATE: usize = 4;
/// `encoding`
pub const KEY_ENCODING: usize = 5;
/// `httpseeds`
pub const KEY_HTTP_SEEDS: usize = 6;
/// `info`
pub const KEY_INFO: usize = 7;
/// `nodes`
pub const KEY_NODES: usize = 8;
/// `files`
pub const KEY_FILES: usize = 9;
/// `length`
pub const KEY_LENGTH: usize = 10;
/// `md5sum`
pub const KEY_MD5SUM: usize = 11;
/// `name`
pub const KEY_NAME: usize = 12;
/// `piece length`
pub const KEY_PIECE_LENGTH: usize = 13;
/// `pieces`
pub const KEY_PIECES: usize = 14;
/// `private`
pub const KEY_PRIVATE: usize = 15;
/// `source`
pub const KEY_SOURCE: usize = 16;
/// `path`
pub const KEY_PATH: usize = 17;

/// The bytes of each key.
pub open spec fn key_bytes(k: usize) -> Seq<u8> {
    if k == KEY_ANNOUNCE {
        seq![97, 110, 110, 111, 117, 110, 99, 101]
    } else if k == KEY_ANNOUNCE_LIST {
        seq![97, 110, 110, 111, 117, 110, 99, 101, 45, 108, 105, 115, 116]
    } else if k == KEY_COMMENT {
        seq![99, 111, 109, 109, 101, 110, 116]
    } else if k == KEY_CREATED_BY {
        seq![99, 114, 101, 97, 116, 101, 100, 32, 98, 121]
    } else if k == KEY_CREATION_DATE {
        seq![99, 114, 101, 97, 116, 105, 111, 110, 32, 100, 97, 116, 101]
    } else if k == KEY_ENCODING {
        seq![101, 110, 99, 111, 100, 105, 110, 103]
    } else if k == KEY_HTTP_SEEDS {
        seq![104, 116, 116, 112, 115, 101, 101, 100, 115]
    } else if k == KEY_INFO {
        seq![105, 110, 102, 111]
    } else if k == KEY_NODES {
        seq![110, 111, 100, 101, 115]
    } else if k == KEY_FILES {
        seq![102, 105, 108, 101, 115]
    } else if k == KEY_LENGTH {
        seq![108, 101, 110, 103, 116, 104]
    } else if k == KEY_MD5SUM {
        seq![109, 100, 53, 115, 117, 109]
    } else if k == KEY_NAME {
        seq![110, 97, 109, 101]
    } else if k == KEY_PIECE_LENGTH {
        seq![112, 105, 101, 99, 101, 32, 108, 101, 110, 103, 116, 104]
    } else if k == KEY_PIECES {
        seq![112, 105, 101, 99, 101, 115]
    } else if k == KEY_PRIVATE {
        seq![112, 114, 105, 118, 97, 116, 101]
    } else if k == KEY_SOURCE {
        seq![115, 111, 117, 114, 99, 101]
    } else {
        seq![112, 97, 116, 104]
    }
}

/// The key's bytes.
pub fn key(k: usize) -> (r: Vec<u8>)
    ensures
        r@ == key_bytes(k),
{
    let r: Vec<u8> = if k == KEY_ANNOUNCE {
        vec![97, 110, 110, 111, 117, 110, 99, 101]
    } else if k == KEY_ANNOUNCE_LIST {
        vec![97, 110, 110, 111, 117, 110, 99, 101, 45, 108, 105, 115, 116]
    } else if k == KEY_COMMENT {
        vec![99, 111, 109, 109, 101, 110, 116]
    } else if k == KEY_CREATED_BY {
        vec![99, 114, 101, 97, 116, 101, 100, 32, 98, 121]
    } else if k == KEY_CREATION_DATE {
        vec![99, 114, 101, 97, 116, 105, 111, 110, 32, 100, 97, 116, 101]
    } else if k == KEY_ENCODING {
        vec![101, 110, 99, 111, 100, 105, 110, 103]
    } else if k == KEY_HTTP_SEEDS {
        vec![104, 116, 116, 112, 115, 101, 101, 100, 115]
    } else if k == KEY_INFO {
        vec![105, 110, 102, 111]
    } else if k == KEY_NODES {
        vec![110, 111, 100, 101, 115]
    } else if k == KEY_FILES {
        vec![102, 105, 108, 101, 115]
    } else if k == KEY_LENGTH {
        vec![108, 101, 110, 103, 116, 104]
    } else if k == KEY_MD5SUM {
        vec![109, 100, 53, 115, 117, 109]
    } else if k == KEY_NAME {
        vec![110, 97, 109, 101]
    } else if k == KEY_PIECE_LENGTH {
        vec![112, 105, 101, 99, 101, 32, 108, 101, 110, 103, 116, 104]
    } else if k == KEY_PIECES {
        vec![112, 105, 101, 99, 101, 115]
    } else if k == KEY_PRIVATE {
        vec![112, 114, 105, 118, 97, 116, 101]
    } else if k == KEY_SOURCE {
        vec![115, 111, 117, 114, 99, 101]
    } else {
        vec![112, 97, 116, 104]
    };
    assert(r@ =~= key_bytes(k));
    r
}

/// Two keys of one dictionary, the first listed before the second.
pub open spec fn listed_before(a: usize, b: usize) -> bool {
    a < b && ((b <= KEY_NODES) || (KEY_FILES <= a && b <= KEY_SOURCE) || (KEY_LENGTH <= a && a
        <= KEY_MD5SUM && b == KEY_PATH))
}

pub proof fn lemma_lex_lt_transitive(a: Seq<u8>, b: Seq<u8>, c: Seq<u8>)
    requires
        lex_lt(a, b),
        lex_lt(b, c),
    ensures
        lex_lt(a, c),
    decreases a.len(),
{
    if a.len() > 0 && b.len() > 0 && c.len() > 0 && a[0] == b[0] && b[0] == c[0] {
        lemma_lex_lt_transitive(a.drop_first(), b.drop_first(), c.drop_first());
    }
}

proof fn lemma_adjacent_keys(k: usize)
    requires
        k < KEY_PATH,
        k != KEY_NODES,
    ensures
        k == KEY_SOURCE ==> lex_lt(key_bytes(KEY_MD5SUM), key_bytes(KEY_PATH)),
        k != KEY_SOURCE ==> lex_lt(key_bytes(k), key_bytes((k + 1) as usize)),
{
    reveal_with_fuel(lex_lt, 10);
}

/// Keys listed in order within a dictionary compare in that order.
pub proof fn lemma_keys_ascending(a: usize, b: usize)
    requires
        listed_before(a, b),
    ensures
        lex_lt(key_bytes(a), key_bytes(b)),
    decreases b - a,
{
    if b == KEY_PATH {
        lemma_adjacent_keys(KEY_SOURCE);
        if a == KEY_LENGTH {
            lemma_adjacent_keys(KEY_LENGTH);
            lemma_lex_lt_transitive(key_bytes(a), key_bytes(KEY_MD5SUM), key_bytes(KEY_PATH));
        }
    } else {
        lemma_adjacent_keys(a);
        if a + 1 < b {
            lemma_keys_ascending((a + 1) as usize, b);
            lemma_lex_lt_transitive(key_bytes(a), key_bytes((a + 1) as usize), key_bytes(b));
        }
    }
}

} // verus!

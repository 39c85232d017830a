//! The piece hasher: all file contents, concatenated in walk order, cut into
//! windows of `piece_length` bytes, each window hashed with SHA-1.
use vstd::prelude::*;

verus! {

/// Length in bytes of a SHA-1 digest.
pub const DIGEST_LEN: usize = 20;

/// What SHA-1 gives for `data`.
pub uninterp spec fn sha1_of(data: Seq<u8>) -> Seq<u8>;

/// Relies on `sha1::Sha1::from(data).digest().bytes()`: the SHA-1 digest of
/// `data`, always 20 bytes.
#[verifier::external_body]
pub(crate) fn sha1_digest(data: &[u8]) -> (r: Vec<u8>)
    ensures
        r@ == sha1_of(data@),
        r@.len() == DIGEST_LEN,
{
    sha1::Sha1::from(data).digest().bytes().to_vec()
}

/// The digests of the pieces of `content`, in order: one for every full
/// window of `piece_length` bytes, then one for the short rest if there is one.
pub open spec fn piece_hashes(content: Seq<u8>, piece_length: nat) -> Seq<Seq<u8>>
    decreases content.len(),
{
    if content.len() == 0 || piece_length == 0 {
        Seq::empty()
    } else if content.len() <= piece_length {
        seq![sha1_of(content)]
    } else {
        seq![sha1_of(content.take(piece_length as int))] + piece_hashes(
            content.skip(piece_length as int),
            piece_length,
        )
    }
}

/// The number of pieces: `ceil(total / piece_length)`, zero for no content.
pub open spec fn piece_count(total: nat, piece_length: nat) -> nat {
    if piece_length == 0 {
        0
    } else {
        ((total + piece_length - 1) / piece_length as int) as nat
    }
}

/// Whole pieces at the front hash on their own: the digests of `a ++ b`
/// are those of `a` followed by those of `b` when `a` fills whole pieces.
pub proof fn lemma_piece_hashes_split(a: Seq<u8>, b: Seq<u8>, piece_length: nat)
    requires
        piece_length > 0,
        a.len() % piece_length == 0,
    ensures
        piece_hashes(a + b, piece_length) == piece_hashes(a, piece_length) + piece_hashes(
            b,
            piece_length,
        ),
    decreases a.len(),
{
    if a.len() == 0 {
        assert(a + b =~= b);
        assert(Seq::<Seq<u8>>::empty() + piece_hashes(b, piece_length) =~= piece_hashes(b, piece_length));
    } else {
        let l = piece_length as int;
        assert(a.len() >= l) by {
            if a.len() < l {
                vstd::arithmetic::div_mod::lemma_small_mod(a.len() as nat, piece_length);
            }
        }
        let rest = a.skip(l);
        assert(rest.len() % piece_length == 0) by {
            vstd::arithmetic::div_mod::lemma_mod_sub_multiples_vanish(a.len() as int, l);
        }
        lemma_piece_hashes_split(rest, b, piece_length);
        assert((a + b).take(l) =~= a.take(l));
        assert((a + b).skip(l) =~= rest + b);
        if a.len() == l {
            assert(rest.len() == 0);
            assert(rest + b =~= b);
            if b.len() == 0 {
                assert(a + b =~= a);
                assert(a.take(l) =~= a);
                assert(piece_hashes(a, piece_length) + Seq::empty() =~= piece_hashes(a, piece_length));
            } else {
                assert(a.take(l) =~= a);
                assert(piece_hashes(rest, piece_length) =~= Seq::empty());
                assert(seq![sha1_of(a)] + Seq::<Seq<u8>>::empty() =~= seq![sha1_of(a)]);
            }
        } else {
            assert(piece_hashes(a + b, piece_length) =~= seq![sha1_of(a.take(l))] + (piece_hashes(
                rest,
                piece_length,
            ) + piece_hashes(b, piece_length)));
        }
    }
}

/// There is one digest for each piece: `ceil(total / piece_length)` of them,
/// none for empty content.
pub proof fn lemma_piece_hashes_len(content: Seq<u8>, piece_length: nat)
    requires
        piece_length > 0,
    ensures
        piece_hashes(content, piece_length).len() == piece_count(content.len(), piece_length),
    decreases content.len(),
{
    let n = content.len() as int;
    let l = piece_length as int;
    if n == 0 {
        assert(piece_count(0, piece_length) == 0) by {
            vstd::arithmetic::div_mod::lemma_fundamental_div_mod_converse_div(l - 1, l, 0, l - 1);
        }
    } else if n <= l {
        assert((n + l - 1) / l == 1) by {
            vstd::arithmetic::div_mod::lemma_fundamental_div_mod_converse_div(n + l - 1, l, 1, n - 1);
        }
    } else {
        lemma_piece_hashes_len(content.skip(l), piece_length);
        assert((n + l - 1) / l == (n - l + l - 1) / l + 1) by {
            vstd::arithmetic::div_mod::lemma_div_plus_one(n - 1, l);
        }
    }
}

/// The views of a list of digests.
pub open spec fn digests_view(d: Seq<Vec<u8>>) -> Seq<Seq<u8>> {
    d.map_values(|x: Vec<u8>| x@)
}

/// A streaming piece hasher. Bytes are pushed in slices of any size; it
/// keeps at most one piece worth of them, and hashing carries across the
/// slices (and so across file boundaries) without a reset.
pub struct Hasher {
    piece_length: usize,
    buffer: Vec<u8>,
    pieces: Vec<Vec<u8>>,
    seen: Ghost<Seq<u8>>,
}

impl Hasher {
    /// Every byte pushed so far, in order.
    pub closed spec fn content(&self) -> Seq<u8> {
        self.seen@
    }

    pub closed spec fn spec_piece_length(&self) -> nat {
        self.piece_length as nat
    }

    /// The bytes already cut into pieces, then a buffer shorter than a piece.
    pub closed spec fn wf(&self) -> bool {
        let done = self.seen@.take(self.seen@.len() - self.buffer@.len());
        &&& self.piece_length > 0
        &&& self.buffer@.len() < self.piece_length
        &&& self.buffer@.len() <= self.seen@.len()
        &&& self.seen@ == done + self.buffer@
        &&& done.len() % (self.piece_length as nat) == 0
        &&& digests_view(self.pieces@) == piece_hashes(done, self.piece_length as nat)
        &&& forall|i: int|
            0 <= i < self.pieces@.len() ==> (#[trigger] self.pieces@[i])@.len() == DIGEST_LEN
    }

    pub fn new(piece_length: usize) -> (r: Hasher)
        requires
            piece_length > 0,
        ensures
            r.wf(),
            r.content() == Seq::<u8>::empty(),
            r.spec_piece_length() == piece_length,
    {
        let r = Hasher {
            piece_length,
            buffer: Vec::new(),
            pieces: Vec::new(),
            seen: Ghost(Seq::empty()),
        };
        assert(digests_view(r.pieces@) =~= Seq::empty());
        assert(r.seen@.take(0) =~= Seq::<u8>::empty());
        assert(r.seen@ =~= r.seen@.take(0) + r.buffer@);
        r
    }

    /// Pushes the next bytes of the content.
    pub fn update(&mut self, data: &[u8])
        requires
            old(self).wf(),
        ensures
            final(self).wf(),
            final(self).content() == old(self).content() + data@,
            final(self).spec_piece_length() == old(self).spec_piece_length(),
    {
        let ghost start = self.seen@;
        let mut i: usize = 0;
        while i < data.len()
            invariant
                self.wf(),
                i <= data.len(),
                self.seen@ == start + data@.take(i as int),
                self.piece_length == old(self).piece_length,
            decreases data.len() - i,
        {
            let ghost done = self.seen@.take(self.seen@.len() - self.buffer@.len());
            let byte = data[i];
            self.buffer.push(byte);
            self.seen = Ghost(self.seen@.push(byte));
            assert(self.seen@ == done + self.buffer@);
            i = i + 1;
            assert(self.seen@ =~= start + data@.take(i as int));
            if self.buffer.len() == self.piece_length {
                let d = sha1_digest(self.buffer.as_slice());
                let ghost full = self.buffer@;
                proof {
                    lemma_piece_hashes_split(done, full, self.piece_length as nat);
                    assert(piece_hashes(full, self.piece_length as nat) == seq![sha1_of(full)]);
                    vstd::arithmetic::div_mod::lemma_mod_add_multiples_vanish(
                        done.len() as int,
                        self.piece_length as int,
                    );
                }
                self.pieces.push(d);
                self.buffer = Vec::new();
                assert(digests_view(self.pieces@) =~= piece_hashes(done, self.piece_length as nat)
                    + seq![sha1_of(full)]);
                assert(self.seen@.take(self.seen@.len() - 0) =~= self.seen@);
                assert(self.seen@ =~= self.seen@ + self.buffer@);
            } else {
                assert(self.seen@.take(self.seen@.len() - self.buffer@.len()) =~= done);
            }
        }
        assert(data@.take(data.len() as int) =~= data@);
    }

    /// The digests of all pieces, the last one short if the content does not
    /// fill it.
    pub fn finish(self) -> (r: Vec<Vec<u8>>)
        requires
            self.wf(),
        ensures
            digests_view(r@) == piece_hashes(self.content(), self.spec_piece_length()),
            forall|i: int| 0 <= i < r@.len() ==> (#[trigger] r@[i])@.len() == DIGEST_LEN,
    {
        let mut pieces = self.pieces;
        if self.buffer.len() > 0 {
            let ghost done = self.seen@.take(self.seen@.len() - self.buffer@.len());
            let d = sha1_digest(self.buffer.as_slice());
            proof {
                lemma_piece_hashes_split(done, self.buffer@, self.piece_length as nat);
            }
            pieces.push(d);
            assert(digests_view(pieces@) =~= piece_hashes(done, self.piece_length as nat)
                + seq![sha1_of(self.buffer@)]);
        } else {
            assert(self.seen@ =~= self.seen@.take(self.seen@.len() - 0));
        }
        pieces
    }
}

} // verus!

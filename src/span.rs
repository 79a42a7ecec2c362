//! An immutable sequence of shared byte chunks, viewed as the bytes of all
//! chunks in order.
use std::sync::Arc;
use vstd::prelude::*;

verus! {

/// The bytes of all chunks, one after the other.
pub open spec fn flatten(chunks: Seq<Seq<u8>>) -> Seq<u8>
    decreases chunks.len(),
{
    if chunks.len() == 0 {
        Seq::empty()
    } else {
        flatten(chunks.drop_last()) + chunks.last()
    }
}

pub proof fn lemma_flatten_push(chunks: Seq<Seq<u8>>, c: Seq<u8>)
    ensures
        flatten(chunks.push(c)) == flatten(chunks) + c,
{
    assert(chunks.push(c).drop_last() =~= chunks);
}

pub proof fn lemma_flatten_concat(a: Seq<Seq<u8>>, b: Seq<Seq<u8>>)
    ensures
        flatten(a + b) == flatten(a) + flatten(b),
    decreases b.len(),
{
    if b.len() == 0 {
        assert(a + b =~= a);
        assert(flatten(a) + flatten(b) =~= flatten(a));
    } else {
        lemma_flatten_concat(a, b.drop_last());
        assert((a + b).drop_last() =~= a + b.drop_last());
        assert(flatten(a) + flatten(b) =~= flatten(a) + flatten(b.drop_last()) + b.last());
    }
}

/// The bytes of each chunk.
pub open spec fn chunk_views(chunks: Seq<Vec<u8>>) -> Seq<Seq<u8>> {
    chunks.map_values(|c: Vec<u8>| c@)
}

/// The bytes of each shared chunk.
pub open spec fn shared_views(chunks: Seq<Arc<Vec<u8>>>) -> Seq<Seq<u8>> {
    chunks.map_values(|c: Arc<Vec<u8>>| c@)
}

/// Relies on `Arc::clone`: another handle to the same bytes; nothing is copied.
#[verifier::external_body]
fn share_chunk(chunk: &Arc<Vec<u8>>) -> (r: Arc<Vec<u8>>)
    ensures
        r@ == chunk@,
{
    Arc::clone(chunk)
}

/// A byte sequence held as a list of chunks that spans share. Spans are never
/// changed in place: every operation returns a new span, and joining spans
/// shares their chunks instead of copying bytes.
pub struct Span {
    chunks: Vec<Arc<Vec<u8>>>,
    len: usize,
}

impl View for Span {
    type V = Seq<u8>;

    closed spec fn view(&self) -> Seq<u8> {
        flatten(shared_views(self.chunks@))
    }
}

impl Span {
    #[verifier::type_invariant]
    closed spec fn inv(&self) -> bool {
        flatten(shared_views(self.chunks@)).len() == self.len
    }

    /// The empty span.
    pub fn new() -> (r: Span)
        ensures
            r@ == Seq::<u8>::empty(),
    {
        let r = Span { chunks: Vec::new(), len: 0 };
        assert(shared_views(r.chunks@) =~= Seq::<Seq<u8>>::empty());
        r
    }

    /// A span holding the given bytes as one chunk.
    pub fn from_vec(bytes: Vec<u8>) -> (r: Span)
        ensures
            r@ == bytes@,
    {
        let len = bytes.len();
        let ghost v = bytes@;
        let mut chunks: Vec<Arc<Vec<u8>>> = Vec::new();
        chunks.push(Arc::new(bytes));
        proof {
            assert(shared_views(chunks@) =~= seq![v]);
            assert(seq![bytes@].drop_last() =~= Seq::<Seq<u8>>::empty());
            lemma_flatten_push(Seq::<Seq<u8>>::empty(), v);
            assert(Seq::<Seq<u8>>::empty().push(v) =~= seq![v]);
            assert(seq![v].drop_last() =~= Seq::<Seq<u8>>::empty());
            assert(Seq::<u8>::empty() + v =~= v);
        }
        Span { chunks, len }
    }

    pub fn len(&self) -> (r: usize)
        ensures
            r == self@.len(),
    {
        proof {
            use_type_invariant(self);
        }
        self.len
    }

    pub fn is_empty(&self) -> (r: bool)
        ensures
            r == (self@.len() == 0),
    {
        proof {
            use_type_invariant(self);
        }
        self.len == 0
    }

    /// The chunks in order; their bytes, one after the other, are the span's bytes.
    pub fn chunks(&self) -> (r: &Vec<Arc<Vec<u8>>>)
        ensures
            flatten(shared_views(r@)) == self@,
    {
        &self.chunks
    }

    /// The bytes of the span in one contiguous buffer.
    pub fn to_vec(&self) -> (r: Vec<u8>)
        ensures
            r@ == self@,
    {
        let mut out: Vec<u8> = Vec::new();
        let mut i: usize = 0;
        while i < self.chunks.len()
            invariant
                i <= self.chunks@.len(),
                out@ == flatten(shared_views(self.chunks@).take(i as int)),
            decreases self.chunks@.len() - i,
        {
            let chunk: &Vec<u8> = &*self.chunks[i];
            let mut j: usize = 0;
            let ghost before = out@;
            while j < chunk.len()
                invariant
                    j <= chunk@.len(),
                    out@ == before + chunk@.take(j as int),
                decreases chunk@.len() - j,
            {
                out.push(chunk[j]);
                j = j + 1;
                assert(out@ =~= before + chunk@.take(j as int));
            }
            proof {
                let cs = shared_views(self.chunks@);
                assert(cs.take(i + 1) =~= cs.take(i as int).push(cs[i as int]));
                lemma_flatten_push(cs.take(i as int), cs[i as int]);
                assert(chunk@.take(j as int) =~= cs[i as int]);
            }
            i = i + 1;
        }
        assert(shared_views(self.chunks@).take(i as int) =~= shared_views(self.chunks@));
        out
    }

    /// The bytes of `self` followed by the bytes of `other`, sharing the
    /// chunks of both.
    pub fn concat(&self, other: &Span) -> (r: Span)
        requires
            self@.len() + other@.len() <= usize::MAX,
        ensures
            r@ == self@ + other@,
    {
        proof {
            use_type_invariant(self);
            use_type_invariant(other);
        }
        let mut chunks: Vec<Arc<Vec<u8>>> = Vec::new();
        let mut i: usize = 0;
        while i < self.chunks.len()
            invariant
                i <= self.chunks@.len(),
                shared_views(chunks@) == shared_views(self.chunks@).take(i as int),
            decreases self.chunks@.len() - i,
        {
            let c = share_chunk(&self.chunks[i]);
            let ghost prev = chunks@;
            chunks.push(c);
            i = i + 1;
            assert(shared_views(chunks@) =~= shared_views(prev).push(self.chunks@[i - 1]@));
            assert(shared_views(chunks@) =~= shared_views(self.chunks@).take(i as int));
        }
        let mut k: usize = 0;
        while k < other.chunks.len()
            invariant
                k <= other.chunks@.len(),
                i == self.chunks@.len(),
                shared_views(chunks@) == shared_views(self.chunks@).take(i as int) + shared_views(
                    other.chunks@,
                ).take(k as int),
            decreases other.chunks@.len() - k,
        {
            let c = share_chunk(&other.chunks[k]);
            let ghost prev = chunks@;
            chunks.push(c);
            k = k + 1;
            assert(shared_views(chunks@) =~= shared_views(prev).push(other.chunks@[k - 1]@));
            assert(shared_views(chunks@) =~= shared_views(self.chunks@).take(i as int)
                + shared_views(other.chunks@).take(k as int));
        }
        proof {
            assert(shared_views(self.chunks@).take(i as int) =~= shared_views(self.chunks@));
            assert(shared_views(other.chunks@).take(k as int) =~= shared_views(other.chunks@));
            lemma_flatten_concat(shared_views(self.chunks@), shared_views(other.chunks@));
        }
        Span { chunks, len: self.len + other.len }
    }

    /// Another span with the same bytes, sharing this one's chunks.
    pub fn share(&self) -> (r: Span)
        ensures
            r@ == self@,
    {
        proof {
            use_type_invariant(self);
        }
        let r = self.concat(&Span::new());
        assert(self@ + Seq::<u8>::empty() =~= self@);
        r
    }

    /// The bytes from `start` up to `end`. Chunks that lie wholly inside the
    /// range are shared; only the parts of the chunks at its two ends are
    /// copied.
    pub fn slice(&self, start: usize, end: usize) -> (r: Span)
        requires
            start <= end <= self@.len(),
        ensures
            r@ == self@.subrange(start as int, end as int),
    {
        proof {
            use_type_invariant(self);
        }
        let ghost cs = shared_views(self.chunks@);
        let mut chunks: Vec<Arc<Vec<u8>>> = Vec::new();
        let mut pos: usize = 0;
        let mut i: usize = 0;
        proof {
            assert(cs.take(0) =~= Seq::<Seq<u8>>::empty());
            assert(flatten(shared_views(chunks@)) =~= self@.subrange(0, 0));
        }
        while i < self.chunks.len()
            invariant
                i <= self.chunks@.len(),
                cs == shared_views(self.chunks@),
                flatten(cs) == self@,
                self@.len() == self.len,
                start <= end <= self@.len(),
                pos == flatten(cs.take(i as int)).len(),
                flatten(shared_views(chunks@)) == self@.subrange(
                    min(start as int, pos as int),
                    min(end as int, pos as int),
                ),
            decreases self.chunks@.len() - i,
        {
            let c: &Vec<u8> = &*self.chunks[i];
            let n = c.len();
            proof {
                lemma_flatten_prefix(cs, i as int);
                lemma_flatten_prefix(cs, i + 1);
                assert(cs.take(i + 1) =~= cs.take(i as int).push(cs[i as int]));
                lemma_flatten_push(cs.take(i as int), cs[i as int]);
                assert(cs[i as int] == c@);
                assert(self@.subrange(pos as int, pos + n) =~= c@);
            }
            let lo: usize = if start > pos { start - pos } else { 0 };
            let hi: usize = if end < pos { 0 } else if end - pos < n { end - pos } else { n };
            let ghost before = shared_views(chunks@);
            if lo < hi {
                let ghost prev = chunks@;
                if lo == 0 && hi == n {
                    let shared = share_chunk(&self.chunks[i]);
                    assert(shared@ =~= c@.subrange(lo as int, hi as int));
                    chunks.push(shared);
                } else {
                    let part = Arc::new(copy_part(c, lo, hi));
                    assert(part@ =~= c@.subrange(lo as int, hi as int));
                    chunks.push(part);
                }
                proof {
                    assert(chunks@ =~= prev.push(chunks@.last()));
                    assert(shared_views(chunks@) =~= before.push(c@.subrange(lo as int, hi as int)));
                    lemma_flatten_push(before, c@.subrange(lo as int, hi as int));
                    assert(c@.subrange(lo as int, hi as int) =~= self@.subrange(pos + lo, pos + hi));
                    assert(self@.subrange(min(start as int, pos as int), min(end as int, pos as int))
                        + self@.subrange(pos + lo, pos + hi) =~= self@.subrange(
                        min(start as int, pos + n),
                        min(end as int, pos + n),
                    ));
                }
            } else {
                assert(self@.subrange(min(start as int, pos as int), min(end as int, pos as int))
                    =~= self@.subrange(min(start as int, pos + n), min(end as int, pos + n)));
            }
            pos = pos + n;
            i = i + 1;
        }
        proof {
            assert(cs.take(i as int) =~= cs);
        }
        Span { chunks, len: end - start }
    }
}

pub open spec fn min(a: int, b: int) -> int {
    if a < b {
        a
    } else {
        b
    }
}

/// The bytes of the first `k` chunks come first.
proof fn lemma_flatten_prefix(cs: Seq<Seq<u8>>, k: int)
    requires
        0 <= k <= cs.len(),
    ensures
        flatten(cs) == flatten(cs.take(k)) + flatten(cs.skip(k)),
        flatten(cs.take(k)).len() <= flatten(cs).len(),
        flatten(cs).subrange(0, flatten(cs.take(k)).len() as int) == flatten(cs.take(k)),
{
    assert(cs.take(k) + cs.skip(k) =~= cs);
    lemma_flatten_concat(cs.take(k), cs.skip(k));
    assert(flatten(cs).subrange(0, flatten(cs.take(k)).len() as int) =~= flatten(cs.take(k)));
}

fn copy_part(c: &Vec<u8>, lo: usize, hi: usize) -> (r: Vec<u8>)
    requires
        lo <= hi <= c@.len(),
    ensures
        r@ == c@.subrange(lo as int, hi as int),
{
    let mut r: Vec<u8> = Vec::new();
    let mut k: usize = lo;
    while k < hi
        invariant
            lo <= k <= hi <= c@.len(),
            r@ == c@.subrange(lo as int, k as int),
        decreases hi - k,
    {
        r.push(c[k]);
        k = k + 1;
        assert(r@ =~= c@.subrange(lo as int, k as int));
    }
    r
}

} // verus!

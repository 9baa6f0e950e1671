//! Fixed-size chunked reader: turns a byte source into a lazy, finite,
//! non-restartable sequence of byte chunks, each at most `CHUNK_SIZE`
//! bytes.  Each chunk is a freshly allocated buffer trimmed to the bytes
//! actually available; an exhausted source (end-of-stream and read faults
//! are deliberately not distinguished: a shorter byte vector) terminates
//! the sequence.  Consumption is pull-based: a chunk is produced only when
//! the consumer asks for the next one.

use vstd::prelude::*;

verus! {

/// Chunks hold at most this many bytes.  The value is not load-bearing,
/// but it is fixed and every chunk but the last is exactly this long.
pub const CHUNK_SIZE: usize = 4096;

/// Where the chunk that starts at `i` ends.
pub open spec fn chunk_end(s: Seq<u8>, i: int) -> int {
    if i + CHUNK_SIZE as int <= s.len() {
        i + CHUNK_SIZE as int
    } else {
        s.len() as int
    }
}

/// The sequence of chunks a source yields from position `i` on.
pub open spec fn sp_chunks(s: Seq<u8>, i: int) -> Seq<Seq<u8>>
    decreases s.len() - i,
{
    if 0 <= i < s.len() {
        seq![s.subrange(i, chunk_end(s, i))] + sp_chunks(s, chunk_end(s, i))
    } else {
        Seq::empty()
    }
}

/// The chunks of a source, concatenated back together.
pub open spec fn concat_chunks(cs: Seq<Seq<u8>>) -> Seq<u8>
    decreases cs.len(),
{
    if cs.len() == 0 {
        Seq::empty()
    } else {
        cs.first() + concat_chunks(cs.drop_first())
    }
}

/// Chunking loses nothing and reorders nothing: the chunks of a source,
/// concatenated in order, are exactly the bytes the source still holds.
pub proof fn lemma_chunks_cover(s: Seq<u8>, i: int)
    requires
        0 <= i <= s.len(),
    ensures
        concat_chunks(sp_chunks(s, i)) == s.subrange(i, s.len() as int),
    decreases s.len() - i,
{
    if i < s.len() {
        let j = chunk_end(s, i);
        let cs = sp_chunks(s, i);
        assert(cs.first() == s.subrange(i, j));
        assert(cs.drop_first() =~= sp_chunks(s, j));
        lemma_chunks_cover(s, j);
        assert(s.subrange(i, j) + s.subrange(j, s.len() as int) =~= s.subrange(
            i,
            s.len() as int,
        ));
    } else {
        assert(s.subrange(i, s.len() as int) =~= Seq::empty());
    }
}

/// Every chunk holds at most `CHUNK_SIZE` bytes, and every chunk except
/// the last holds exactly `CHUNK_SIZE`.
pub proof fn lemma_chunk_sizes(s: Seq<u8>, i: int)
    requires
        0 <= i <= s.len(),
    ensures
        forall|k: int|
            0 <= k < sp_chunks(s, i).len() ==> #[trigger] sp_chunks(s, i)[k].len()
                <= CHUNK_SIZE,
        forall|k: int|
            0 <= k < sp_chunks(s, i).len() - 1 ==> #[trigger] sp_chunks(s, i)[k].len()
                == CHUNK_SIZE,
    decreases s.len() - i,
{
    if i < s.len() {
        let j = chunk_end(s, i);
        lemma_chunk_sizes(s, j);
        assert forall|k: int| 0 <= k < sp_chunks(s, i).len() implies #[trigger] sp_chunks(
            s,
            i,
        )[k].len() <= CHUNK_SIZE by {
            if k > 0 {
                assert(sp_chunks(s, i)[k] == sp_chunks(s, j)[k - 1]);
            }
        }
        assert forall|k: int| 0 <= k < sp_chunks(s, i).len() - 1 implies #[trigger] sp_chunks(
            s,
            i,
        )[k].len() == CHUNK_SIZE by {
            if k > 0 {
                assert(sp_chunks(s, i)[k] == sp_chunks(s, j)[k - 1]);
            } else {
                assert(sp_chunks(s, j).len() >= 1);
                assert(j < s.len());
            }
        }
    }
}

/// The chunked reader over a byte source held in memory.
pub struct ChunkedBufReader {
    source: Vec<u8>,
    position: usize,
}

impl ChunkedBufReader {
    /// The bytes the underlying source delivers, in order.
    pub closed spec fn bytes(&self) -> Seq<u8> {
        self.source@
    }

    /// How many bytes have been handed out so far.
    pub closed spec fn at(&self) -> int {
        self.position as int
    }

    pub fn new(source: Vec<u8>) -> (r: Self)
        ensures
            r.bytes() == source@,
            r.at() == 0,
    {
        Self { source, position: 0 }
    }

    /// Produce the next chunk: up to `CHUNK_SIZE` bytes, freshly
    /// allocated, trimmed to what the source still held; `None` once the
    /// source is exhausted.
    pub fn next_chunk(&mut self) -> (r: Option<Vec<u8>>)
        ensures
            final(self).bytes() == old(self).bytes(),
            ({
                let s = old(self).bytes();
                let i = old(self).at();
                match r {
                    Some(chunk) => 0 <= i < s.len() && chunk@ == s.subrange(i, chunk_end(s, i))
                        && final(self).at() == chunk_end(s, i) && sp_chunks(s, i) == seq![
                        chunk@,
                    ] + sp_chunks(s, final(self).at()),
                    None => !(0 <= i < s.len()) && final(self).at() == i && sp_chunks(s, i)
                        == Seq::<Seq<u8>>::empty(),
                }
            }),
    {
        if self.position >= self.source.len() {
            return None;
        }
        let end = if self.source.len() - self.position >= CHUNK_SIZE {
            self.position + CHUNK_SIZE
        } else {
            self.source.len()
        };
        let mut chunk: Vec<u8> = Vec::new();
        let mut k = self.position;
        while k < end
            invariant
                self.position <= k <= end <= self.source.len(),
                chunk@ == self.source@.subrange(self.position as int, k as int),
            decreases end - k,
        {
            chunk.push(self.source[k]);
            k = k + 1;
            proof {
                assert(chunk@ =~= self.source@.subrange(self.position as int, k as int));
            }
        }
        self.position = end;
        Some(chunk)
    }
}

} // verus!

use vstd::prelude::*;
use crate::codec::{
    chunk_complete, chunk_payload, decode, decode_ok, decodes_to, declared_len, lemma_decode_prefix,
    read_u32_le,
};
use crate::error::RetrieveError;
use crate::page::{PageIndex, PAGE_SIZE};

verus! {

/// What a chunk read asks for next.
pub enum ReadStep {
    /// Read `pages` pages starting at page `at` and hand them to `absorb`.
    More { at: PageIndex, pages: u64 },
    /// The read is over.
    Done(Result<Vec<u8>, RetrieveError>),
}

/// The state of one chunk read: where the chunk starts and the whole pages
/// read from there so far.
pub struct ChunkRead {
    idx: PageIndex,
    buf: Vec<u8>,
}

/// Pages held by `len` bytes of whole pages.
pub open spec fn pages_of(len: nat) -> nat {
    (len / (PAGE_SIZE as nat)) as nat
}

impl ChunkRead {
    pub closed spec fn start(&self) -> PageIndex {
        self.idx
    }

    /// The bytes read so far, from the chunk's first page on.
    pub closed spec fn buffered(&self) -> Seq<u8> {
        self.buf@
    }

    /// Starts a read of the chunk at `idx`. The first request covers
    /// `overflow_size_hint + 1` pages; the hint only saves reads, the chunk's
    /// header decides its length.
    pub fn new(idx: PageIndex, overflow_size_hint: u32) -> (r: (ChunkRead, ReadStep))
        ensures
            r.0.start() == idx,
            r.0.buffered() == Seq::<u8>::empty(),
            (r.1 matches ReadStep::More { at, pages } && at == idx && pages
                == overflow_size_hint as u64 + 1),
    {
        (ChunkRead { idx, buf: Vec::new() }, ReadStep::More { at: idx, pages: overflow_size_hint as u64 + 1 })
    }

    /// Takes the whole pages that the last request returned and says what
    /// comes next. A request that returned nothing means the file ended
    /// before the chunk did. Once the header's declared pages are all there,
    /// the chunk is decoded and any surplus pages are ignored.
    pub fn absorb(&mut self, got: &[u8]) -> (r: ReadStep)
        requires
            got@.len() % (PAGE_SIZE as nat) == 0,
            old(self).buffered().len() % (PAGE_SIZE as nat) == 0,
        ensures
            final(self).start() == old(self).start(),
            final(self).buffered().len() % (PAGE_SIZE as nat) == 0,
            got@.len() == 0 ==> final(self).buffered() == old(self).buffered() && (r matches ReadStep::Done(Err(RetrieveError::OutOfPages))),
            got@.len() > 0 && old(self).buffered().len() + got@.len() <= usize::MAX ==> final(self).buffered() == old(self).buffered() + got@,
            got@.len() > 0 && old(self).buffered().len() + got@.len() > usize::MAX ==> (r matches ReadStep::Done(Err(RetrieveError::OutOfPages))),
            got@.len() > 0 && old(self).buffered().len() + got@.len() <= usize::MAX && chunk_complete(final(self).buffered()) ==> (r matches ReadStep::Done(res) && decodes_to(final(self).buffered(), res)),
            got@.len() > 0 && old(self).buffered().len() + got@.len() <= usize::MAX && !chunk_complete(final(self).buffered()) ==> (
                old(self).start() + pages_of(final(self).buffered().len()) <= u64::MAX ==>
                    (r matches ReadStep::More { at, pages } && at == old(self).start() + pages_of(final(self).buffered().len())
                    && pages == pages_of(declared_len(final(self).buffered()) as nat) - pages_of(final(self).buffered().len()))),
            got@.len() > 0 && old(self).buffered().len() + got@.len() <= usize::MAX && !chunk_complete(final(self).buffered()) && old(self).start() + pages_of(final(self).buffered().len()) > u64::MAX
                ==> (r matches ReadStep::Done(Err(RetrieveError::OutOfPages))),
    {
        if got.len() == 0 {
            return ReadStep::Done(Err(RetrieveError::OutOfPages));
        }
        if got.len() > usize::MAX - self.buf.len() {
            return ReadStep::Done(Err(RetrieveError::OutOfPages));
        }
        let ghost before = self.buf@;
        let mut i: usize = 0;
        while i < got.len()
            invariant
                i <= got@.len(),
                self.buf@ == before + got@.subrange(0, i as int),
                self.idx == old(self).idx,
            decreases got@.len() - i,
        {
            self.buf.push(got[i]);
            i = i + 1;
            assert(self.buf@ =~= before + got@.subrange(0, i as int));
        }
        assert(got@.subrange(0, i as int) =~= got@);
        assert(self.buf@.len() >= PAGE_SIZE);
        let overflow = read_u32_le(self.buf.as_slice(), 0);
        let declared: u64 = (overflow as u64 + 1) * 4096;
        if declared <= self.buf.len() as u64 {
            return ReadStep::Done(decode(self.buf.as_slice()));
        }
        let have: u64 = self.buf.len() as u64 / 4096;
        if have > u64::MAX - self.idx {
            return ReadStep::Done(Err(RetrieveError::OutOfPages));
        }
        ReadStep::More { at: self.idx + have, pages: overflow as u64 + 1 - have }
    }
}

/// Two reads of the chunk that starts at byte `start` of a file decode alike,
/// however many pages each fetched (so whatever hint began them), once each
/// holds the pages that the chunk's header declares.
pub proof fn lemma_hint_independence(file: Seq<u8>, start: int, a_len: int, b_len: int)
    requires
        0 <= start,
        0 <= a_len,
        0 <= b_len,
        start + a_len <= file.len(),
        start + b_len <= file.len(),
        chunk_complete(file.subrange(start, start + a_len)),
        chunk_complete(file.subrange(start, start + b_len)),
    ensures
        decode_ok(file.subrange(start, start + a_len)) == decode_ok(
            file.subrange(start, start + b_len),
        ),
        chunk_payload(file.subrange(start, start + a_len)) == chunk_payload(
            file.subrange(start, start + b_len),
        ),
{
    let a = file.subrange(start, start + a_len);
    let b = file.subrange(start, start + b_len);
    assert(a[0] == b[0] && a[1] == b[1] && a[2] == b[2] && a[3] == b[3]);
    assert(declared_len(a) == declared_len(b));
    let n = declared_len(a);
    assert(b.subrange(0, n) =~= a.subrange(0, n));
    lemma_decode_prefix(a, b);
}

} // verus!

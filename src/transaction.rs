use vstd::prelude::*;
use std::sync::Arc;
use crate::codec::{
    chunk_pages, chunk_payload, decode_ok, declared_len, encodable, encode,
    encode_spec, lemma_decode_prefix, lemma_round_trip,
};
use crate::page::{Page, PageContent, PageIndex, PAGE_SIZE};

verus! {

/// A writer's staging area: pages appended past the durable length seen at
/// its start, not yet written. Dropping it discards them.
pub struct Transaction {
    prior_page_n: u64,
    pages: Vec<u8>,
}

impl Transaction {
    /// The durable page length when the transaction began.
    pub closed spec fn prior(&self) -> u64 {
        self.prior_page_n
    }

    /// The bytes of the buffered pages, to be written at the prior length.
    pub closed spec fn extent(&self) -> Seq<u8> {
        self.pages@
    }

    pub open spec fn page_count_spec(&self) -> nat {
        (self.extent().len() / (PAGE_SIZE as nat)) as nat
    }

    /// The page index that the next appended page receives.
    pub open spec fn next_index(&self) -> int {
        self.prior() + self.page_count_spec()
    }

    pub open spec fn wf(&self) -> bool {
        &&& self.extent().len() % (PAGE_SIZE as nat) == 0
        &&& self.next_index() * PAGE_SIZE <= u64::MAX
    }

    /// Begins a transaction over a store whose durable length is `page_len` pages.
    pub fn begin(page_len: u64) -> (r: Transaction)
        requires
            page_len * PAGE_SIZE <= u64::MAX,
        ensures
            r.wf(),
            r.prior() == page_len,
            r.extent() == Seq::<u8>::empty(),
            r.next_index() == page_len,
    {
        Transaction { prior_page_n: page_len, pages: Vec::new() }
    }

    pub fn prior_page_n(&self) -> (r: u64)
        ensures
            r == self.prior(),
    {
        self.prior_page_n
    }

    /// Pages buffered so far.
    pub fn page_count(&self) -> (r: u64)
        requires
            self.wf(),
        ensures
            r == self.page_count_spec(),
    {
        proof {
            assert(self.page_count_spec() <= self.next_index());
        }
        (self.pages.len() / PAGE_SIZE) as u64
    }

    /// The bytes to write, as one extent, at byte offset `write_offset()`.
    pub fn extent_bytes(&self) -> (r: &Vec<u8>)
        ensures
            r@ == self.extent(),
    {
        &self.pages
    }

    /// Byte offset in the file at which the extent goes.
    pub fn write_offset(&self) -> (r: u64)
        requires
            self.wf(),
        ensures
            r == self.prior() * PAGE_SIZE,
    {
        proof {
            assert(self.prior() * PAGE_SIZE <= self.next_index() * PAGE_SIZE) by (nonlinear_arith)
                requires
                    self.prior() <= self.next_index(),
            ;
        }
        self.prior_page_n * 4096
    }

    /// The durable page length once the extent is written and flushed.
    pub fn committed_len(&self) -> (r: u64)
        requires
            self.wf(),
        ensures
            r == self.next_index(),
    {
        proof {
            assert(self.next_index() <= self.next_index() * PAGE_SIZE) by (nonlinear_arith)
                requires
                    self.next_index() >= 0,
            ;
        }
        self.prior_page_n + (self.pages.len() / PAGE_SIZE) as u64
    }

    /// Appends a payload as a chunk. Returns the chunk's first page index and
    /// its overflow page count; the chunk is readable there once the
    /// transaction commits.
    pub fn append_chunk(&mut self, payload: &[u8]) -> (r: (PageIndex, u32))
        requires
            old(self).wf(),
            encodable(payload@.len()),
            (old(self).next_index() + chunk_pages(payload@.len())) * PAGE_SIZE <= u64::MAX,
            old(self).extent().len() + chunk_pages(payload@.len()) * PAGE_SIZE <= usize::MAX,
        ensures
            final(self).wf(),
            final(self).prior() == old(self).prior(),
            final(self).extent() == old(self).extent() + encode_spec(payload@),
            r.0 == old(self).next_index(),
            r.1 == chunk_pages(payload@.len()) - 1,
            final(self).next_index() == old(self).next_index() + chunk_pages(payload@.len()),
    {
        let idx = self.committed_len();
        let chunk = encode(payload);
        let ghost before = self.pages@;
        proof {
            assert(chunk@.len() == chunk_pages(payload@.len()) * PAGE_SIZE);
            assert((before.len() + chunk@.len()) / (PAGE_SIZE as nat) == before.len() / (
            PAGE_SIZE as nat) + chunk_pages(payload@.len())) by (nonlinear_arith)
                requires
                    before.len() % 4096 == 0,
                    chunk@.len() == chunk_pages(payload@.len()) * 4096,
            ;
            assert((before.len() + chunk@.len()) % (PAGE_SIZE as nat) == 0) by (nonlinear_arith)
                requires
                    before.len() % 4096 == 0,
                    chunk@.len() == chunk_pages(payload@.len()) * 4096,
            ;
        }
        let mut i: usize = 0;
        while i < chunk.len()
            invariant
                i <= chunk@.len(),
                before.len() + chunk@.len() <= usize::MAX,
                self.pages@ == before + chunk@.subrange(0, i as int),
                self.prior_page_n == old(self).prior_page_n,
            decreases chunk@.len() - i,
        {
            self.pages.push(chunk[i]);
            i = i + 1;
            assert(self.pages@ =~= before + chunk@.subrange(0, i as int));
        }
        assert(chunk@.subrange(0, i as int) =~= chunk@);
        (idx, (chunk.len() / PAGE_SIZE - 1) as u32)
    }

    /// Gives a page a fresh index at the end of the transaction's extent and
    /// buffers its content there.
    pub fn alloc_page(&mut self, content: PageContent) -> (r: Page)
        requires
            old(self).wf(),
            content.wf(),
            (old(self).next_index() + 1) * PAGE_SIZE <= u64::MAX,
            old(self).extent().len() + PAGE_SIZE <= usize::MAX,
        ensures
            final(self).wf(),
            final(self).prior() == old(self).prior(),
            final(self).extent() == old(self).extent() + content.bytes_spec(),
            r.idx_spec_is(old(self).next_index()),
            r.content_spec() == content,
            final(self).next_index() == old(self).next_index() + 1,
    {
        let idx = self.committed_len();
        let bytes = content.as_slice();
        let ghost before = self.pages@;
        proof {
            assert((before.len() + 4096) / 4096 == before.len() / 4096 + 1) by (nonlinear_arith)
                requires
                    before.len() % 4096 == 0,
            ;
        }
        let mut i: usize = 0;
        while i < bytes.len()
            invariant
                i <= bytes@.len(),
                bytes@.len() == PAGE_SIZE,
                before.len() + 4096 <= usize::MAX,
                self.pages@ == before + bytes@.subrange(0, i as int),
                self.prior_page_n == old(self).prior_page_n,
            decreases bytes@.len() - i,
        {
            self.pages.push(bytes[i]);
            i = i + 1;
            assert(self.pages@ =~= before + bytes@.subrange(0, i as int));
        }
        assert(bytes@.subrange(0, i as int) =~= bytes@);
        Page::new(content, idx)
    }

    /// Wraps a shared page for use in this transaction.
    pub fn tx_page(&self, page: Arc<Page>) -> (r: TxPage)
        ensures
            r == (TxPage::Shared { shared: page }),
    {
        TxPage::Shared { shared: page }
    }
}

/// A page seen by a transaction: still shared with readers, or a private
/// copy at a new index that the transaction will write.
pub enum TxPage {
    Shared { shared: Arc<Page> },
    Dirty(Page),
}

impl TxPage {
    pub open spec fn is_dirty(&self) -> bool {
        self is Dirty
    }

    pub open spec fn dirty_page(&self) -> Page {
        self->Dirty_0
    }

    /// Turns a shared page into a private copy at a freshly allocated index;
    /// a page that is already dirty stays as it is. Pages are never changed
    /// in place.
    pub fn dirty(&mut self, txn: &mut Transaction)
        requires
            old(txn).wf(),
            (old(txn).next_index() + 1) * PAGE_SIZE <= u64::MAX,
            old(txn).extent().len() + PAGE_SIZE <= usize::MAX,
            *old(self) matches TxPage::Shared { shared } ==> shared.content_spec().wf(),
        ensures
            final(txn).wf(),
            final(self).is_dirty(),
            old(self).is_dirty() ==> *final(self) == *old(self) && *final(txn) == *old(txn),
            *old(self) matches TxPage::Shared { shared } ==> {
                &&& final(self).dirty_page().idx_spec_is(old(txn).next_index())
                &&& final(self).dirty_page().content_spec().bytes_spec() == shared.content_spec().bytes_spec()
                &&& final(txn).extent() == old(txn).extent() + shared.content_spec().bytes_spec()
                &&& final(txn).prior() == old(txn).prior()
            },
    {
        let copy = match self {
            TxPage::Shared { shared } => Some(shared.content_copy()),
            TxPage::Dirty(_) => None,
        };
        if let Some(content) = copy {
            let page = txn.alloc_page(content);
            *self = TxPage::Dirty(page);
        }
    }

    /// Makes the page writable within the transaction and replaces its
    /// content; the page keeps the index that `dirty` gave it.
    pub fn write(&mut self, txn: &mut Transaction, content: PageContent)
        requires
            old(txn).wf(),
            (old(txn).next_index() + 1) * PAGE_SIZE <= u64::MAX,
            old(txn).extent().len() + PAGE_SIZE <= usize::MAX,
            *old(self) matches TxPage::Shared { shared } ==> shared.content_spec().wf(),
        ensures
            final(txn).wf(),
            final(self).is_dirty(),
            final(self).dirty_page().content_spec() == content,
            *old(self) matches TxPage::Dirty(p) ==> final(self).dirty_page().idx_spec_is(p.index_view()),
            !old(self).is_dirty() ==> final(self).dirty_page().idx_spec_is(old(txn).next_index()),
    {
        self.dirty(txn);
        if let TxPage::Dirty(page) = self {
            page.set_content(content);
        }
    }

    /// The page as the transaction sees it.
    pub fn page(&self) -> (r: &Page)
        ensures
            *self matches TxPage::Shared { shared } ==> *r == *shared,
            *self matches TxPage::Dirty(p) ==> *r == p,
    {
        match self {
            TxPage::Shared { shared } => &**shared,
            TxPage::Dirty(p) => p,
        }
    }
}

/// Progress of writing `len` bytes at byte offset `pos` when the transport
/// may write fewer bytes than asked: the rest is written from where the last
/// write stopped, until all is written.
pub struct PageWrite {
    pos: u64,
    len: usize,
    written: usize,
}

impl PageWrite {
    pub closed spec fn pos_spec(&self) -> u64 {
        self.pos
    }

    pub closed spec fn len_spec(&self) -> usize {
        self.len
    }

    pub closed spec fn written_spec(&self) -> usize {
        self.written
    }

    pub fn new(pos: u64, len: usize) -> (r: PageWrite)
        requires
            pos + len <= u64::MAX,
        ensures
            r.pos_spec() == pos,
            r.len_spec() == len,
            r.written_spec() == 0,
    {
        PageWrite { pos, len, written: 0 }
    }

    /// Bytes written so far.
    pub fn written(&self) -> (r: usize)
        ensures
            r == self.written_spec(),
    {
        self.written
    }

    /// All bytes are written.
    pub fn finished(&self) -> (r: bool)
        ensures
            r == (self.written_spec() >= self.len_spec()),
    {
        self.written >= self.len
    }

    /// Where the next write goes: the file offset and the first byte of the
    /// buffer still to write.
    pub fn next(&self) -> (r: (u64, usize))
        requires
            self.written_spec() <= self.len_spec(),
            self.pos_spec() + self.len_spec() <= u64::MAX,
        ensures
            r.0 == self.pos_spec() + self.written_spec(),
            r.1 == self.written_spec(),
    {
        (self.pos + self.written as u64, self.written)
    }

    /// Records that a write put `n` more bytes on disk.
    pub fn record(&mut self, n: usize)
        requires
            old(self).written_spec() + n <= old(self).len_spec(),
        ensures
            final(self).written_spec() == old(self).written_spec() + n,
            final(self).pos_spec() == old(self).pos_spec(),
            final(self).len_spec() == old(self).len_spec(),
    {
        self.written = self.written + n;
    }
}

/// After a commit, a chunk appended to the transaction reads back as its
/// payload from its index: whatever number of pages a read returns from
/// there, as long as it covers the chunk, decoding it gives the payload.
pub proof fn lemma_appended_chunk_reads_back(before: Seq<u8>, p: Seq<u8>, read: Seq<u8>)
    requires
        encodable(p.len()),
        read.len() >= encode_spec(p).len(),
        read.subrange(0, encode_spec(p).len() as int) == encode_spec(p),
    ensures
        (before + encode_spec(p)).subrange(before.len() as int, (before.len() + encode_spec(p).len()) as int) == encode_spec(p),
        decode_ok(read),
        chunk_payload(read) == p,
{
    let c = encode_spec(p);
    assert((before + c).subrange(before.len() as int, (before.len() + c.len()) as int) =~= c);
    lemma_round_trip(p);
    assert(c.subrange(0, declared_len(c)) =~= c);
    lemma_decode_prefix(c, read);
}

} // verus!

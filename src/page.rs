use vstd::prelude::*;

verus! {

/// Ordinal position of a page within the backing file.
pub type PageIndex = u64;

/// Size in bytes of one on-disk page.
pub const PAGE_SIZE: usize = 4096;

/// Bytes of a page that hold data; the last byte holds the page type.
pub const PAGE_DATA_SIZE: usize = 4095;

/// The tag stored in the last byte of a page.
#[derive(Clone, Copy, Debug, PartialEq, Eq, Structural)]
pub enum PageType {
    Blank,
    Root,
    FreeList,
    ValueLog,
    Branch,
}

impl PageType {
    pub open spec fn tag_spec(self) -> u8 {
        match self {
            PageType::Blank => 0,
            PageType::Root => 1,
            PageType::FreeList => 2,
            PageType::ValueLog => 3,
            PageType::Branch => 4,
        }
    }

    /// The byte that stands for this type on disk.
    pub fn tag(&self) -> (r: u8)
        ensures
            r == self.tag_spec(),
    {
        match self {
            PageType::Blank => 0,
            PageType::Root => 1,
            PageType::FreeList => 2,
            PageType::ValueLog => 3,
            PageType::Branch => 4,
        }
    }

    /// The type whose tag is `t`, if there is one.
    pub fn from_tag(t: u8) -> (r: Option<PageType>)
        ensures
            r is Some <==> t < 5,
            r matches Some(p) ==> p.tag_spec() == t,
    {
        match t {
            0 => Some(PageType::Blank),
            1 => Some(PageType::Root),
            2 => Some(PageType::FreeList),
            3 => Some(PageType::ValueLog),
            4 => Some(PageType::Branch),
            _ => None,
        }
    }
}

/// The content of one page: its data bytes and its type tag.
pub struct PageContent {
    pub data: Vec<u8>,
    pub page_type: PageType,
}

impl PageContent {
    pub open spec fn wf(&self) -> bool {
        self.data@.len() == PAGE_DATA_SIZE
    }

    /// The page as it stands on disk.
    pub open spec fn bytes_spec(&self) -> Seq<u8> {
        self.data@.push(self.page_type.tag_spec())
    }

    /// A copy of the page's content.
    pub fn content_copy(&self) -> (r: PageContent)
        ensures
            r.data@ == self.data@,
            r.page_type == self.page_type,
    {
        let mut data: Vec<u8> = Vec::new();
        let mut i: usize = 0;
        while i < self.data.len()
            invariant
                i <= self.data@.len(),
                data@ == self.data@.subrange(0, i as int),
            decreases self.data@.len() - i,
        {
            data.push(self.data[i]);
            i = i + 1;
            assert(data@ =~= self.data@.subrange(0, i as int));
        }
        assert(data@ =~= self.data@);
        PageContent { data, page_type: self.page_type }
    }

    /// A fresh blank page, all data bytes zero.
    pub fn uninit() -> (r: PageContent)
        ensures
            r.wf(),
            r.data@ == Seq::new(PAGE_DATA_SIZE as nat, |i: int| 0u8),
            r.page_type == PageType::Blank,
    {
        let mut data: Vec<u8> = Vec::with_capacity(PAGE_DATA_SIZE);
        let mut i: usize = 0;
        while i < PAGE_DATA_SIZE
            invariant
                i <= PAGE_DATA_SIZE,
                data@ == Seq::new(i as nat, |j: int| 0u8),
            decreases PAGE_DATA_SIZE - i,
        {
            data.push(0u8);
            i = i + 1;
            assert(data@ =~= Seq::new(i as nat, |j: int| 0u8));
        }
        PageContent { data, page_type: PageType::Blank }
    }

    /// The page's bytes in on-disk order: the data, then the type tag.
    pub fn as_slice(&self) -> (r: Vec<u8>)
        requires
            self.wf(),
        ensures
            r@ == self.bytes_spec(),
            r@.len() == PAGE_SIZE,
    {
        let mut out: Vec<u8> = Vec::with_capacity(PAGE_SIZE);
        let mut i: usize = 0;
        while i < self.data.len()
            invariant
                i <= self.data@.len(),
                out@ == self.data@.subrange(0, i as int),
            decreases self.data@.len() - i,
        {
            out.push(self.data[i]);
            i = i + 1;
            assert(out@ =~= self.data@.subrange(0, i as int));
        }
        assert(out@ =~= self.data@);
        out.push(self.page_type.tag());
        out
    }

    /// Reads a page from its on-disk bytes; `None` where the bytes are not one
    /// page or the tag names no page type.
    pub fn from_bytes(b: &[u8]) -> (r: Option<PageContent>)
        ensures
            r is Some <==> (b@.len() == PAGE_SIZE && b@[PAGE_SIZE - 1] < 5),
            r matches Some(p) ==> p.wf() && p.bytes_spec() == b@,
    {
        if b.len() != PAGE_SIZE {
            return None;
        }
        match PageType::from_tag(b[PAGE_SIZE - 1]) {
            None => None,
            Some(page_type) => {
                let mut data: Vec<u8> = Vec::with_capacity(PAGE_DATA_SIZE);
                let mut i: usize = 0;
                while i < PAGE_DATA_SIZE
                    invariant
                        i <= PAGE_DATA_SIZE,
                        b@.len() == PAGE_SIZE,
                        data@ == b@.subrange(0, i as int),
                    decreases PAGE_DATA_SIZE - i,
                {
                    data.push(b[i]);
                    i = i + 1;
                    assert(data@ =~= b@.subrange(0, i as int));
                }
                let p = PageContent { data, page_type };
                assert(p.bytes_spec() =~= b@);
                Some(p)
            },
        }
    }
}

/// A page together with the index it stands at.
pub struct Page {
    pub content: PageContent,
    index: PageIndex,
}

impl Page {
    /// A copy of the page's content.
    pub fn content_copy(&self) -> (r: PageContent)
        ensures
            r.data@ == self.content_spec().data@,
            r.page_type == self.content_spec().page_type,
    {
        self.content.content_copy()
    }

    pub closed spec fn index_spec(&self) -> PageIndex {
        self.index
    }

    pub closed spec fn content_spec(&self) -> PageContent {
        self.content
    }

    pub open spec fn idx_spec_is(&self, i: int) -> bool {
        self.index_spec() == i
    }

    pub open spec fn index_view(&self) -> int {
        self.index_spec() as int
    }

    pub fn content(&self) -> (r: &PageContent)
        ensures
            *r == self.content_spec(),
    {
        &self.content
    }

    /// Replaces the page's content; the index stays.
    pub fn set_content(&mut self, content: PageContent)
        ensures
            final(self).content_spec() == content,
            final(self).index_spec() == old(self).index_spec(),
    {
        self.content = content;
    }

    pub fn new(content: PageContent, index: PageIndex) -> (r: Page)
        ensures
            r.content_spec() == content,
            r.index_spec() == index,
    {
        Page { content, index }
    }

    pub fn idx(&self) -> (r: PageIndex)
        ensures
            r == self.index_spec(),
    {
        self.index
    }
}

} // verus!

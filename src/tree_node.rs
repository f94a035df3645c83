use vstd::prelude::*;
use vstd::slice::slice_subrange;
use std::sync::Arc;
use crate::page::{Page, PageIndex, PAGE_DATA_SIZE};

verus! {

/// Bytes at the start of a node page that hold the length of its key prefix.
pub const PREFIX_LEN_SIZE: usize = 2;

/// A node of the index, held in one page. The page's data begins with the
/// length of the node's key prefix (`u16`, little-endian), then the prefix.
pub struct TreeNode {
    page_idx: PageIndex,
    page: Arc<Page>,
}

/// The key prefix stored in a node page's data; a length that runs past the
/// page is cut at its end.
pub open spec fn node_prefix(data: Seq<u8>) -> Seq<u8> {
    let len = data[0] as int + data[1] as int * 256;
    let end = if PREFIX_LEN_SIZE + len <= data.len() { PREFIX_LEN_SIZE + len } else { data.len() as int };
    data.subrange(PREFIX_LEN_SIZE as int, end)
}

impl TreeNode {
    pub closed spec fn page_spec(&self) -> Page {
        *self.page
    }

    pub closed spec fn index_spec(&self) -> PageIndex {
        self.page_idx
    }

    pub fn new(page: Arc<Page>) -> (r: TreeNode)
        ensures
            r.page_spec() == *page,
            r.index_spec() == page.index_spec(),
    {
        let page_idx = page.idx();
        TreeNode { page_idx, page }
    }

    pub fn idx(&self) -> (r: PageIndex)
        ensures
            r == self.index_spec(),
    {
        self.page_idx
    }

    /// The key prefix that every key under this node shares.
    pub fn prefix(&self) -> (r: &[u8])
        requires
            self.page_spec().content_spec().wf(),
        ensures
            r@ == node_prefix(self.page_spec().content_spec().data@),
    {
        let data = self.page.content().data.as_slice();
        let len: usize = data[0] as usize + data[1] as usize * 256;
        let end: usize = if PREFIX_LEN_SIZE + len <= PAGE_DATA_SIZE {
            PREFIX_LEN_SIZE + len
        } else {
            PAGE_DATA_SIZE
        };
        slice_subrange(data, PREFIX_LEN_SIZE, end)
    }
}

} // verus!

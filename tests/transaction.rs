use std::sync::Arc;
use pagestore::codec::{decode, HEADER_SIZE};
use pagestore::{Page, PageContent, PageType, PageWrite, Transaction, TreeNode, TxPage, PAGE_SIZE};

fn payload(len: usize, seed: u8) -> Vec<u8> {
    (0..len).map(|i| (i as u8) ^ seed).collect()
}

#[test]
fn three_chunks_commit_to_four_pages() {
    let mut tx = Transaction::begin(0);
    let a = payload(PAGE_SIZE - HEADER_SIZE, 1);
    let b = payload(2 * PAGE_SIZE - HEADER_SIZE, 2);
    let c = payload(PAGE_SIZE - HEADER_SIZE, 3);
    assert_eq!(tx.append_chunk(&a), (0, 0));
    assert_eq!(tx.append_chunk(&b), (1, 1));
    assert_eq!(tx.append_chunk(&c), (3, 0));
    assert_eq!(tx.page_count(), 4);
    assert_eq!(tx.committed_len(), 4);
    assert_eq!(tx.write_offset(), 0);
    let file = tx.extent_bytes().clone();
    assert_eq!(file.len(), 4 * PAGE_SIZE);
    assert_eq!(decode(&file[0..]).unwrap(), a);
    assert_eq!(decode(&file[PAGE_SIZE..]).unwrap(), b);
    assert_eq!(decode(&file[3 * PAGE_SIZE..]).unwrap(), c);
}

#[test]
fn appending_after_existing_pages() {
    let mut tx = Transaction::begin(7);
    assert_eq!(tx.write_offset(), 7 * PAGE_SIZE as u64);
    assert_eq!(tx.append_chunk(&payload(PAGE_SIZE - HEADER_SIZE, 0)), (7, 0));
    assert_eq!(tx.committed_len(), 8);
}

#[test]
fn dropped_transaction_leaves_start_index() {
    let page_len = 5;
    {
        let mut tx = Transaction::begin(page_len);
        tx.append_chunk(&payload(PAGE_SIZE - HEADER_SIZE, 0));
    }
    let mut tx = Transaction::begin(page_len);
    assert_eq!(tx.prior_page_n(), 5);
    assert_eq!(tx.append_chunk(&payload(2 * PAGE_SIZE - HEADER_SIZE, 0)), (5, 1));
}

#[test]
fn partial_writes_continue_where_they_stopped() {
    let mut w = PageWrite::new(3 * PAGE_SIZE as u64, PAGE_SIZE);
    assert_eq!(w.next(), (3 * PAGE_SIZE as u64, 0));
    w.record(1000);
    assert!(!w.finished());
    assert_eq!(w.next(), (3 * PAGE_SIZE as u64 + 1000, 1000));
    w.record(PAGE_SIZE - 1000);
    assert!(w.finished());
    assert_eq!(w.written(), PAGE_SIZE);
}

#[test]
fn page_bytes_and_type_tag() {
    let mut content = PageContent::uninit();
    assert_eq!(content.data.len(), 4095);
    content.page_type = PageType::ValueLog;
    content.data[0] = 9;
    let bytes = content.as_slice();
    assert_eq!(bytes.len(), PAGE_SIZE);
    assert_eq!(bytes[0], 9);
    assert_eq!(bytes[PAGE_SIZE - 1], 3);
    let back = PageContent::from_bytes(&bytes).unwrap();
    assert_eq!(back.data, content.data);
    assert_eq!(back.page_type, PageType::ValueLog);
    let mut bad = bytes.clone();
    bad[PAGE_SIZE - 1] = 5;
    assert!(PageContent::from_bytes(&bad).is_none());
    assert!(PageContent::from_bytes(&bytes[1..]).is_none());
}

#[test]
fn page_type_tags() {
    assert_eq!(PageType::Blank.tag(), 0);
    assert_eq!(PageType::Branch.tag(), 4);
    assert_eq!(PageType::from_tag(2), Some(PageType::FreeList));
    assert_eq!(PageType::from_tag(9), None);
}

#[test]
fn page_keeps_its_index() {
    let p = Page::new(PageContent::uninit(), 42);
    assert_eq!(p.idx(), 42);
}

#[test]
fn alloc_page_takes_next_index() {
    let mut tx = Transaction::begin(2);
    tx.append_chunk(&payload(PAGE_SIZE - HEADER_SIZE, 0));
    let p = tx.alloc_page(PageContent::uninit());
    assert_eq!(p.idx(), 3);
    assert_eq!(tx.committed_len(), 4);
}

#[test]
fn writing_shared_page_copies_it_to_new_index() {
    let mut tx = Transaction::begin(10);
    let mut shared_content = PageContent::uninit();
    shared_content.data[7] = 77;
    let shared = Arc::new(Page::new(shared_content, 3));
    let mut tp = tx.tx_page(shared.clone());
    assert_eq!(tp.page().idx(), 3);
    tp.dirty(&mut tx);
    assert_eq!(tp.page().idx(), 10);
    assert_eq!(tp.page().content.data[7], 77);
    let mut next = PageContent::uninit();
    next.data[0] = 1;
    tp.write(&mut tx, next);
    assert_eq!(tp.page().idx(), 10);
    assert_eq!(tp.page().content.data[0], 1);
    assert_eq!(shared.content.data[7], 77);
    assert_eq!(shared.idx(), 3);
    assert!(matches!(tp, TxPage::Dirty(_)));
    assert_eq!(tx.committed_len(), 11);
}

#[test]
fn node_prefix_reads_length_then_bytes() {
    let mut content = PageContent::uninit();
    content.page_type = PageType::Branch;
    content.data[0] = 3;
    content.data[1] = 0;
    content.data[2..5].copy_from_slice(b"key");
    content.data[5] = b'!';
    let node = TreeNode::new(Arc::new(Page::new(content, 8)));
    assert_eq!(node.idx(), 8);
    assert_eq!(node.prefix(), b"key");
}

#[test]
fn node_prefix_longer_than_page_is_cut() {
    let mut content = PageContent::uninit();
    content.data[0] = 0xff;
    content.data[1] = 0xff;
    let node = TreeNode::new(Arc::new(Page::new(content, 0)));
    assert_eq!(node.prefix().len(), 4095 - 2);
}

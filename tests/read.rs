use pagestore::codec::{encode, HEADER_SIZE};
use pagestore::{ChunkRead, ReadStep, RetrieveError, PAGE_SIZE};

fn payload(len: usize) -> Vec<u8> {
    (0..len).map(|i| (i % 251) as u8).collect()
}

/// Runs a read against an in-memory file image, as the store's read loop does.
fn read_from(file: &[u8], idx: u64, hint: u32) -> (Result<Vec<u8>, RetrieveError>, usize) {
    let (mut rd, mut step) = ChunkRead::new(idx, hint);
    let mut requests = 0;
    loop {
        match step {
            ReadStep::Done(r) => return (r, requests),
            ReadStep::More { at, pages } => {
                requests += 1;
                let start = (at as usize * PAGE_SIZE).min(file.len());
                let end = ((at + pages) as usize * PAGE_SIZE).min(file.len());
                step = rd.absorb(&file[start..end]);
            }
        }
    }
}

#[test]
fn first_request_follows_hint() {
    let (_, step) = ChunkRead::new(10, 2);
    assert!(matches!(step, ReadStep::More { at: 10, pages: 3 }));
}

#[test]
fn hint_zero_reads_rest_in_second_request() {
    let p = payload(3 * PAGE_SIZE - HEADER_SIZE);
    let c = encode(&p);
    let (mut rd, _) = ChunkRead::new(4, 0);
    let step = rd.absorb(&c[..PAGE_SIZE]);
    assert!(matches!(step, ReadStep::More { at: 5, pages: 2 }));
    match rd.absorb(&c[PAGE_SIZE..]) {
        ReadStep::Done(Ok(got)) => assert_eq!(got, p),
        _ => panic!("expected the payload"),
    }
}

#[test]
fn hint_does_not_change_payload() {
    let mut file = encode(&payload(PAGE_SIZE - HEADER_SIZE));
    let p = payload(2 * PAGE_SIZE - HEADER_SIZE);
    file.extend(encode(&p));
    file.extend(encode(&payload(PAGE_SIZE - HEADER_SIZE)));
    for hint in [0u32, 1, 2] {
        let (r, _) = read_from(&file, 1, hint);
        assert_eq!(r.unwrap(), p);
    }
    assert_eq!(read_from(&file, 1, 0).1, 2);
    assert_eq!(read_from(&file, 1, 1).1, 1);
}

#[test]
fn empty_read_is_out_of_pages() {
    let (mut rd, _) = ChunkRead::new(0, 0);
    assert!(matches!(rd.absorb(&[]), ReadStep::Done(Err(RetrieveError::OutOfPages))));
}

#[test]
fn chunk_past_end_of_file_is_out_of_pages() {
    let c = encode(&payload(3 * PAGE_SIZE - HEADER_SIZE));
    let (r, _) = read_from(&c[..PAGE_SIZE * 2], 0, 0);
    assert!(matches!(r, Err(RetrieveError::OutOfPages)));
}

#[test]
fn corrupted_chunk_read_is_bad_checksum() {
    let mut c = encode(&payload(2 * PAGE_SIZE - HEADER_SIZE));
    c[PAGE_SIZE + 5] ^= 0x10;
    let (r, _) = read_from(&c, 0, 1);
    assert!(matches!(r, Err(RetrieveError::BadChecksum)));
}

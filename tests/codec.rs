use pagestore::codec::{decode, encodable_len, encode, HEADER_SIZE};
use pagestore::{RetrieveError, PAGE_SIZE};

fn payload(len: usize, seed: u8) -> Vec<u8> {
    (0..len).map(|i| (i as u8).wrapping_mul(31).wrapping_add(seed)).collect()
}

#[test]
fn encode_one_page_header() {
    let p = payload(PAGE_SIZE - HEADER_SIZE, 7);
    let c = encode(&p);
    assert_eq!(c.len(), PAGE_SIZE);
    assert_eq!(&c[0..4], &[0, 0, 0, 0]);
    assert_eq!(&c[4..8], &crc32fast::hash(&p).to_le_bytes());
    assert_eq!(&c[8..], &p[..]);
}

#[test]
fn encode_two_pages_overflow_count() {
    let p = payload(2 * PAGE_SIZE - HEADER_SIZE, 1);
    let c = encode(&p);
    assert_eq!(c.len(), 2 * PAGE_SIZE);
    assert_eq!(&c[0..4], &[1, 0, 0, 0]);
}

#[test]
fn checksum_is_not_the_identity() {
    let p = payload(PAGE_SIZE - HEADER_SIZE, 0);
    let c = encode(&p);
    let stored = u32::from_le_bytes([c[4], c[5], c[6], c[7]]);
    assert_eq!(stored, 0x0000_0000u32.wrapping_add(crc32fast::hash(&p)));
    let other = encode(&payload(PAGE_SIZE - HEADER_SIZE, 1));
    assert_ne!(&c[4..8], &other[4..8]);
}

#[test]
fn round_trip_one_and_three_pages() {
    for pages in [1usize, 3] {
        let p = payload(pages * PAGE_SIZE - HEADER_SIZE, pages as u8);
        let c = encode(&p);
        assert_eq!(decode(&c).unwrap(), p);
    }
}

#[test]
fn round_trip_ignores_surplus_pages() {
    let p = payload(PAGE_SIZE - HEADER_SIZE, 9);
    let mut c = encode(&p);
    c.extend(std::iter::repeat(0xAAu8).take(2 * PAGE_SIZE));
    assert_eq!(decode(&c).unwrap(), p);
}

#[test]
fn flipped_bit_gives_bad_checksum() {
    let p = payload(2 * PAGE_SIZE - HEADER_SIZE, 3);
    let c = encode(&p);
    for at in [HEADER_SIZE, HEADER_SIZE + 100, c.len() - 1] {
        for bit in 0..8 {
            let mut bad = c.clone();
            bad[at] ^= 1 << bit;
            assert!(matches!(decode(&bad), Err(RetrieveError::BadChecksum)));
        }
    }
}

#[test]
fn truncated_chunk_is_out_of_pages() {
    let p = payload(3 * PAGE_SIZE - HEADER_SIZE, 4);
    let c = encode(&p);
    assert!(matches!(decode(&c[..2 * PAGE_SIZE]), Err(RetrieveError::OutOfPages)));
    assert!(matches!(decode(&c[..4]), Err(RetrieveError::OutOfPages)));
    assert!(matches!(decode(&[]), Err(RetrieveError::OutOfPages)));
}

#[test]
fn encodable_lengths() {
    assert!(encodable_len(PAGE_SIZE - HEADER_SIZE));
    assert!(encodable_len(5 * PAGE_SIZE - HEADER_SIZE));
    assert!(!encodable_len(PAGE_SIZE));
    assert!(!encodable_len(0));
    assert!(!encodable_len(usize::MAX));
}

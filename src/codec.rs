use vstd::prelude::*;
use crate::error::RetrieveError;
use crate::page::PAGE_SIZE;

verus! {

/// Bytes of the chunk header: overflow page count, then checksum.
pub const HEADER_SIZE: usize = 8;

/// Largest number of pages one chunk may span (its overflow count is a `u32`).
pub const MAX_CHUNK_PAGES: u64 = 0x1_0000_0000;

/// The IEEE CRC32 of a byte sequence.
pub uninterp spec fn crc32_of(bytes: Seq<u8>) -> u32;

/// Relies on crc32fast::hash: the IEEE CRC32 of the bytes, which depends on
/// the bytes alone.
#[verifier::external_body]
fn crc32(bytes: &[u8]) -> (r: u32)
    ensures
        r == crc32_of(bytes@),
{
    crc32fast::hash(bytes)
}

/// Little-endian bytes of a `u32`.
pub open spec fn u32_le(x: u32) -> Seq<u8> {
    seq![
        (x & 0xff) as u8,
        ((x >> 8u32) & 0xff) as u8,
        ((x >> 16u32) & 0xff) as u8,
        ((x >> 24u32) & 0xff) as u8,
    ]
}

/// The `u32` that four little-endian bytes stand for.
pub open spec fn u32_from_le(b0: u8, b1: u8, b2: u8, b3: u8) -> u32 {
    (b0 as u32) | ((b1 as u32) << 8u32) | ((b2 as u32) << 16u32) | ((b3 as u32) << 24u32)
}

pub proof fn lemma_u32_le_round_trip(x: u32)
    ensures
        u32_from_le(u32_le(x)[0], u32_le(x)[1], u32_le(x)[2], u32_le(x)[3]) == x,
{
    assert(((x & 0xff) as u8 as u32) | ((((x >> 8u32) & 0xff) as u8 as u32) << 8u32) | ((((x
        >> 16u32) & 0xff) as u8 as u32) << 16u32) | ((((x >> 24u32) & 0xff) as u8 as u32)
        << 24u32) == x) by (bit_vector);
}

/// Pages that a chunk with a payload of `len` bytes occupies.
pub open spec fn chunk_pages(len: nat) -> nat {
    ((len + HEADER_SIZE) / (PAGE_SIZE as int)) as nat
}

/// A payload that fills whole pages once the header is added, and whose
/// overflow count fits the header.
pub open spec fn encodable(len: nat) -> bool {
    &&& (len + HEADER_SIZE) % (PAGE_SIZE as int) == 0
    &&& chunk_pages(len) <= MAX_CHUNK_PAGES
}

/// The on-disk bytes of a chunk: overflow count, checksum, payload.
pub open spec fn encode_spec(p: Seq<u8>) -> Seq<u8> {
    u32_le((chunk_pages(p.len()) - 1) as u32) + u32_le(crc32_of(p)) + p
}

/// The overflow page count that a chunk's header declares.
pub open spec fn declared_overflow(b: Seq<u8>) -> u32 {
    u32_from_le(b[0], b[1], b[2], b[3])
}

/// The checksum that a chunk's header holds.
pub open spec fn stored_checksum(b: Seq<u8>) -> u32 {
    u32_from_le(b[4], b[5], b[6], b[7])
}

/// Bytes, header included, that a chunk's header declares.
pub open spec fn declared_len(b: Seq<u8>) -> int {
    (declared_overflow(b) as int + 1) * PAGE_SIZE
}

/// The bytes hold the whole chunk that their header declares.
pub open spec fn chunk_complete(b: Seq<u8>) -> bool {
    b.len() >= HEADER_SIZE && declared_len(b) <= b.len()
}

/// The payload of a chunk: what follows the header, up to the declared end.
pub open spec fn chunk_payload(b: Seq<u8>) -> Seq<u8> {
    b.subrange(HEADER_SIZE as int, declared_len(b))
}

pub open spec fn checksum_ok(b: Seq<u8>) -> bool {
    stored_checksum(b) == crc32_of(chunk_payload(b))
}

/// What decoding the bytes of a chunk gives.
pub open spec fn decode_ok(b: Seq<u8>) -> bool {
    chunk_complete(b) && checksum_ok(b)
}

/// Whether a payload of `len` bytes can be encoded as a chunk.
pub fn encodable_len(len: usize) -> (r: bool)
    ensures
        r == encodable(len as nat),
{
    if len as u64 > 0x1_0000_0000_0000 {
        return false;
    }
    let total: u64 = len as u64 + 8;
    total % 4096 == 0 && total / 4096 <= MAX_CHUNK_PAGES
}

/// `r` is what decoding the chunk bytes `b` gives.
pub open spec fn decodes_to(b: Seq<u8>, r: Result<Vec<u8>, RetrieveError>) -> bool {
    &&& !chunk_complete(b) ==> (r matches Err(RetrieveError::OutOfPages))
    &&& chunk_complete(b) && !checksum_ok(b) ==> (r matches Err(RetrieveError::BadChecksum))
    &&& decode_ok(b) ==> (r matches Ok(p) && p@ == chunk_payload(b))
}

/// Encodes a payload as a chunk: an 8-byte header (overflow page count and the
/// payload's CRC32, both little-endian) followed by the payload.
pub fn encode(payload: &[u8]) -> (r: Vec<u8>)
    requires
        encodable(payload@.len()),
    ensures
        r@ == encode_spec(payload@),
        r@.len() == chunk_pages(payload@.len()) * PAGE_SIZE,
{
    let pages: u64 = ((payload.len() as u64) + 8) / 4096;
    let overflow: u32 = (pages - 1) as u32;
    let sum = crc32(payload);
    let mut out: Vec<u8> = Vec::new();
    push_u32_le(&mut out, overflow);
    push_u32_le(&mut out, sum);
    let mut i: usize = 0;
    while i < payload.len()
        invariant
            i <= payload@.len(),
            out@ == u32_le(overflow) + u32_le(sum) + payload@.subrange(0, i as int),
        decreases payload@.len() - i,
    {
        out.push(payload[i]);
        i = i + 1;
        assert(out@ =~= u32_le(overflow) + u32_le(sum) + payload@.subrange(0, i as int));
    }
    assert(payload@.subrange(0, i as int) =~= payload@);
    out
}

fn push_u32_le(out: &mut Vec<u8>, x: u32)
    ensures
        final(out)@ == old(out)@ + u32_le(x),
{
    out.push((x & 0xff) as u8);
    out.push(((x >> 8u32) & 0xff) as u8);
    out.push(((x >> 16u32) & 0xff) as u8);
    out.push(((x >> 24u32) & 0xff) as u8);
    assert(final(out)@ =~= old(out)@ + u32_le(x));
}

pub fn read_u32_le(b: &[u8], at: usize) -> (r: u32)
    requires
        at + 4 <= b@.len(),
    ensures
        r == u32_from_le(b@[at as int], b@[at + 1], b@[at + 2], b@[at + 3]),
{
    (b[at] as u32) | ((b[at + 1] as u32) << 8u32) | ((b[at + 2] as u32) << 16u32) | ((b[at
        + 3] as u32) << 24u32)
}

/// Decodes the bytes of a chunk read from its first page on. Bytes past the
/// declared end are ignored; fewer bytes than declared give `OutOfPages`, and
/// a checksum that does not match the payload gives `BadChecksum`.
pub fn decode(b: &[u8]) -> (r: Result<Vec<u8>, RetrieveError>)
    ensures
        decodes_to(b@, r),
{
    if b.len() < HEADER_SIZE {
        return Err(RetrieveError::OutOfPages);
    }
    let overflow = read_u32_le(b, 0);
    let stored = read_u32_le(b, 4);
    let len: u64 = (overflow as u64 + 1) * 4096;
    if len > b.len() as u64 {
        return Err(RetrieveError::OutOfPages);
    }
    let end = len as usize;
    let payload = slice_to_vec(b, HEADER_SIZE, end);
    if crc32(payload.as_slice()) != stored {
        return Err(RetrieveError::BadChecksum);
    }
    Ok(payload)
}

/// The bytes of `b` from `start` up to `end`.
pub fn slice_to_vec(b: &[u8], start: usize, end: usize) -> (r: Vec<u8>)
    requires
        start <= end <= b@.len(),
    ensures
        r@ == b@.subrange(start as int, end as int),
{
    let mut out: Vec<u8> = Vec::with_capacity(end - start);
    let mut i: usize = start;
    while i < end
        invariant
            start <= i <= end <= b@.len(),
            out@ == b@.subrange(start as int, i as int),
        decreases end - i,
    {
        out.push(b[i]);
        i = i + 1;
        assert(out@ =~= b@.subrange(start as int, i as int));
    }
    out
}

/// Decoding what encoding produced gives back the payload.
pub proof fn lemma_round_trip(p: Seq<u8>)
    requires
        encodable(p.len()),
    ensures
        decode_ok(encode_spec(p)),
        chunk_payload(encode_spec(p)) == p,
        declared_len(encode_spec(p)) == encode_spec(p).len(),
{
    let b = encode_spec(p);
    let ov = (chunk_pages(p.len()) - 1) as u32;
    lemma_u32_le_round_trip(ov);
    lemma_u32_le_round_trip(crc32_of(p));
    assert(b[0] == u32_le(ov)[0] && b[1] == u32_le(ov)[1] && b[2] == u32_le(ov)[2] && b[3]
        == u32_le(ov)[3]);
    assert(b[4] == u32_le(crc32_of(p))[0] && b[5] == u32_le(crc32_of(p))[1] && b[6] == u32_le(
        crc32_of(p),
    )[2] && b[7] == u32_le(crc32_of(p))[3]);
    assert(declared_overflow(b) == ov);
    assert(b.subrange(HEADER_SIZE as int, b.len() as int) =~= p);
}

/// A decoded chunk depends only on the bytes up to its declared end: two
/// reads that agree there, however far each went, give the same result.
pub proof fn lemma_decode_prefix(a: Seq<u8>, b: Seq<u8>)
    requires
        chunk_complete(a),
        b.len() >= declared_len(a),
        b.subrange(0, declared_len(a)) == a.subrange(0, declared_len(a)),
    ensures
        chunk_complete(b),
        declared_len(b) == declared_len(a),
        chunk_payload(b) == chunk_payload(a),
        decode_ok(b) == decode_ok(a),
{
    let n = declared_len(a);
    assert(n >= PAGE_SIZE);
    assert forall|i: int| 0 <= i < n implies b[i] == a[i] by {
        assert(b.subrange(0, n)[i] == b[i]);
        assert(a.subrange(0, n)[i] == a[i]);
    }
    assert(b[0] == a[0] && b[1] == a[1] && b[2] == a[2] && b[3] == a[3]);
    assert(b[4] == a[4] && b[5] == a[5] && b[6] == a[6] && b[7] == a[7]);
    assert(chunk_payload(b) =~= chunk_payload(a));
}

} // verus!

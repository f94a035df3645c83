use vstd::prelude::*;
use std::sync::Arc;

verus! {

#[verifier::external_type_specification]
#[verifier::external_body]
pub struct ExIoError(std::io::Error);

/// Why a chunk could not be retrieved.
#[derive(Clone, Debug)]
pub enum RetrieveError {
    /// The underlying read failed; shared so that every coalesced waiter sees it.
    Io(Arc<std::io::Error>),
    /// The stored checksum does not match the payload.
    BadChecksum,
    /// The chunk's declared length runs past the readable end of the file.
    OutOfPages,
}

} // verus!

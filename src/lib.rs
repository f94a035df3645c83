//! Storage core of a single-file database: fixed-size pages, checksummed
//! multi-page chunks, an append-and-commit write transaction, the decision
//! logic of chunk reads and partial writes, and a sharded LRU cache with
//! single-flight loads.
use vstd::prelude::*;

pub mod cache;
pub mod codec;
pub mod error;
pub mod page;
pub mod read;
pub mod transaction;
pub mod tree_node;

pub use cache::{shard_of, CacheShard, Lookup, LookupKind, CACHE_SHARDS};
pub use codec::{decode, encode};
pub use error::RetrieveError;
pub use tree_node::TreeNode;
pub use transaction::{PageWrite, Transaction, TxPage};
pub use read::{ChunkRead, ReadStep};
pub use page::{Page, PageContent, PageIndex, PageType, PAGE_SIZE};

verus! {
}

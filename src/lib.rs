//! A content-addressable object store: content addresses, a content-defined
//! chunker, the decisions of a sharded object store, a file registry and the
//! node that composes them.

pub mod address;
pub mod args;
pub mod chunk;
pub mod config;
pub mod node;
pub mod registry;
pub mod store;
pub mod text;

pub use address::{ContentAddress, ContentAddressError, HashAlgorithm};
pub use chunk::{Chunk, ChunkConfig, Chunker, ChunkerError};
pub use config::{Config, LogLevel, NodeState};
pub use node::{Node, NodeError};
pub use registry::{FileId, FileMetadata, FileRegistry};
pub use store::{ChunkInfo, ContentStore, ContentStoreConfig, ContentStoreError, ContentStoreStats, StorageConfig};

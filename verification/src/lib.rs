//! A uniform storage-access abstraction: read, write, list, move and delete
//! files without knowing whether the medium is a hierarchical local
//! filesystem or a flat-namespace remote object store.
//!
//! The heart of the crate is the [`FileProvider`] capability: one contract,
//! stated against a mathematical storage model, that every backend must
//! satisfy. The crate ships the shared error model, the entry descriptor,
//! the path-resolution rules of the local and object-store backends, and an
//! in-memory reference backend that provably satisfies the capability.

pub mod entry;
pub mod error;
pub mod laws;
pub mod local;
pub mod model;
pub mod object_store;
pub mod path;
pub mod provider;

pub use entry::FileEntry;
pub use error::FileProviderError;
pub use local::LocalFileProvider;
pub use object_store::AwsS3FileProvider;
pub use path::join_path;
pub use provider::FileProvider;
pub use provider::MemoryFileProvider;

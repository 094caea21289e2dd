//! Verified core of an object-storage backend for S3-compatible buckets.
//!
//! The crate holds the decisions that the backend takes around its remote
//! calls: how a payload is cut into parts, how keys are derived from paths,
//! when a failed call is tried again, how a multipart upload proceeds and how
//! the answers to a batched delete are aggregated. The remote calls themselves
//! are made by the caller, which feeds their outcomes back in.

pub mod accounting;
pub mod bulk_delete;
pub mod digest;
pub mod doc_mapping;
pub mod error;
pub mod keys;
pub mod multipart;
pub mod ranges;
pub mod retry;
pub mod storage;
pub mod text;
pub mod uri;

pub use doc_mapping::DocMappingUid;
pub use storage::S3CompatibleObjectStorage;
pub use uri::parse_s3_uri;

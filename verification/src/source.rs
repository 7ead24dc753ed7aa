//! The byte sources the engine can read from: HTTP range GET, S3 and S3-compatible stores, IPFS through a
//! gateway, and a set of mirrors that fails a chunk over from one source to the next. Each says what to ask
//! for and what to make of the answer; the connections are the caller's.

pub mod http;
pub mod ipfs;
pub mod mirror;
pub mod s3;

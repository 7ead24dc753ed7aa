//! xget: a chunked, parallel, resumable, verified fetch engine.
//!
//! The engine plans a resource into chunks, fetches them in parallel, resumes a dropped chunk from its
//! offset, reassembles them in order, gates on the exact length, and streams the bytes through a hash so a
//! reported digest is trustworthy. It never certifies bytes it did not verify: a source that ignores a range,
//! or a length that does not match, is a typed [`Error`], not a silent bad file.
//!
//! Everything in this crate is verified and none of it performs I/O: it says what to request, what to accept,
//! what to write where, and what to report, and a driver owns the files and the connections.
//!
//! Where things live: [`vocabulary`], [`range`] and [`error`] hold what everything else speaks; [`plan`],
//! [`control`], [`checksum`] and [`digest`] are chunk planning, the `.xget` resume trailer and the hashing;
//! [`engine`] is the machine that drives a download; [`source`] knows the protocols; [`builder`] sets a
//! download up; [`cli`] and [`progress`] are what the command line decides and shows. [`text`] and [`image`]
//! are what they are all written in.

pub mod builder;
pub mod checksum;
pub mod cli;
pub mod control;
pub mod digest;
pub mod engine;
pub mod error;
pub mod image;
pub mod path;
pub mod plan;
pub mod progress;
pub mod range;
pub mod source;
pub mod text;
pub mod vocabulary;

pub use crate::builder::from;
pub use crate::builder::get;
pub use crate::builder::Download;
pub use crate::checksum::Checksum;
pub use crate::checksum::UnknownChecksum;
pub use crate::control::control_source;
pub use crate::control::inspect;
pub use crate::control::resumable;
pub use crate::control::Inspection;
pub use crate::engine::output::Output;
pub use crate::error::Error;
pub use crate::path::Platform;
pub use crate::plan::plan;
pub use crate::range::ByteRange;
pub use crate::source::http::HttpSource;
pub use crate::source::ipfs::IpfsSource;
pub use crate::source::mirror::Mirrors;
pub use crate::source::s3::S3Source;
pub use crate::vocabulary::Options;
pub use crate::vocabulary::Probe;
pub use crate::vocabulary::Progress;
pub use crate::vocabulary::Report;

//! The vocabulary that sources, the engine and its callers share.

use crate::checksum::Checksum;
use core::time::Duration;
use vstd::prelude::*;

verus! {

/// How a download is tuned: parallelism, retries, which checksum to verify with, and an optional inactivity
/// timeout.
#[derive(Clone, Copy, Debug)]
pub struct Options {
    /// Maximum number of chunks fetched in parallel. A source that cannot serve ranges ignores this and is
    /// fetched as one stream.
    pub parts: u32,
    /// Retries for a dropped chunk, each resuming from the offset it reached.
    pub retries: u32,
    /// The checksum algorithm to verify the download with, or [`Checksum::Skip`].
    pub checksum: Checksum,
    /// Fail a read that stalls for this long, so a retry can resume the chunk; `None` waits forever.
    pub timeout: Option<Duration>,
    /// Resume an interrupted download: keep the bytes already there, fetch only what remains, and fold the
    /// existing prefix into the checksum during the in-order verify pass. Requires a range-capable source.
    pub resume: bool,
    /// Fetch as a single ordered stream instead of parallel chunks.
    pub sequential: bool,
}

impl Default for Options {
    /// Five chunks, ten retries, SHA-256, no timeout, neither resumed nor sequential.
    fn default() -> (o: Self)
        ensures
            o.parts == 5,
            o.retries == 10,
            o.checksum == Checksum::Sha256,
            o.timeout is None,
            !o.resume,
            !o.sequential,
    {
        Options {
            parts: 5,
            retries: 10,
            checksum: Checksum::Sha256,
            timeout: None,
            resume: false,
            sequential: false,
        }
    }
}

/// What a source reports about a resource before fetching.
#[derive(Clone, PartialEq, Eq, Debug)]
pub struct Probe {
    /// Total length in bytes.
    pub length: u64,
    /// Whether the source can serve byte ranges, and so be fetched in parallel chunks. When false the engine
    /// fetches the whole resource as a single stream.
    pub supports_ranges: bool,
    /// A filename the source suggests for the resource (from an HTTP `Content-Disposition`), if any and
    /// after stripping any path components.
    pub filename: Option<String>,
    /// The resource's media type (from an HTTP `Content-Type`), if the source reports one.
    pub content_type: Option<String>,
    /// A validator identifying this exact version of the resource: an HTTP `ETag` when offered, else
    /// `Last-Modified`, else a source's own immutable identity (an IPFS CID). Recorded when a partial is
    /// written and compared on resume, so a partial from a since-changed resource is discarded rather than
    /// stitched. `None` when the source offers nothing to identify the version by.
    pub validator: Option<String>,
    /// A checksum the source vouches for, as an algorithm and lowercase hex digest (e.g. an S3 stored
    /// checksum).
    pub checksum: Option<(Checksum, String)>,
}

impl Default for Probe {
    /// An empty resource that nothing is known of.
    fn default() -> (p: Self)
        ensures
            p.length == 0,
            !p.supports_ranges,
            p.filename is None,
            p.content_type is None,
            p.validator is None,
            p.checksum is None,
    {
        Probe {
            length: 0,
            supports_ranges: false,
            filename: None,
            content_type: None,
            validator: None,
            checksum: None,
        }
    }
}

/// The outcome of a completed download.
#[derive(Clone, Debug)]
pub struct Report {
    /// The verified total length in bytes.
    pub length: u64,
    /// The lowercase hex checksum, or `None` if no checksum was requested.
    pub hash: Option<String>,
}

/// Reports download progress. The engine calls [`Progress::start`] once with the planned chunk sizes, then,
/// as bytes flow through the two-stage pipeline, [`Progress::received`] when a chunk's bytes arrive from the
/// source and [`Progress::wrote`] when they are written and hashed in order, then [`Progress::finish`]. The
/// two stages let a display shade bytes received (buffered ahead) apart from bytes confirmed. Every method
/// takes `&self` and defaults to nothing, so a caller opts in only to what it wants and passes `()` for none.
pub trait Progress {
    /// The planned chunk sizes, in order, before fetching begins.
    fn start(&self, _chunks: &[u64]) {
    }

    /// Bytes already present per chunk before fetching begins, in plan order: a resumed download's chunks
    /// already on disk from an earlier run. These bytes did not arrive over the network this run, so they
    /// are not [`Progress::received`] and never enter a speed estimate.
    fn restore(&self, _present: &[u64]) {
    }

    /// `bytes` more bytes arrived from the source for chunk `index`, buffered ahead of writing.
    fn received(&self, _index: usize, _bytes: u64) {
    }

    /// `bytes` more bytes of chunk `index` were written to the output and folded into the hash.
    fn wrote(&self, _index: usize, _bytes: u64) {
    }

    /// Chunk `index` failed with `error` and is about to be tried again, for the `retry`-th of at most `max`
    /// times, from `resume_from` bytes into the chunk.
    fn retry(&self, _index: usize, _retry: u32, _max: u32, _resume_from: u64, _error: &str) {
    }

    /// The download finished.
    fn finish(&self) {
    }
}

impl Progress for () {

}

} // verus!

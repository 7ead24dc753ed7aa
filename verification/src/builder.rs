//! The URL-first builder, the public way to set up a download. [`get`] (HTTP) or [`from`] (any source) starts
//! one, and option methods chain.

use crate::checksum::Checksum;
use crate::error;
use crate::error::Error;
use crate::source::http;
use crate::source::http::HttpSource;
use crate::vocabulary::Options;
use crate::vocabulary::Progress;
use core::time::Duration;
use vstd::prelude::*;

verus! {

/// A pending download: a source, its [`Options`], and a progress reporter, configured by chaining. Built by
/// [`get`] or [`from`].
#[must_use]
pub struct Download<'p, S, P: Progress> {
    /// The source.
    pub source: S,
    /// How the download is tuned.
    pub options: Options,
    /// What progress is reported to.
    pub progress: &'p P,
}

/// Start a download from an HTTP(S) `url`. For another protocol, build the source yourself and use [`from`].
pub fn get(url: &str) -> (download: Result<Download<'static, HttpSource, ()>, Error>)
    ensures
        match http::parsed_url(url@) {
            Ok((text, _)) => {
                &&& download matches Ok(d)
                &&& d.source.text() == text
                &&& is_default(d.options)
            },
            Err(message) => download matches Err(e) && error::is_detail(e, message),
        },
{
    match HttpSource::new(url) {
        Ok(source) => Ok(from(source)),
        Err(e) => Err(e),
    }
}

/// The options of a download that nothing was asked of: five chunks, ten retries, SHA-256, no timeout, neither
/// resumed nor sequential.
pub open spec fn is_default(options: Options) -> bool {
    &&& options.parts == 5
    &&& options.retries == 10
    &&& options.checksum == Checksum::Sha256
    &&& options.timeout is None
    &&& !options.resume
    &&& !options.sequential
}

/// Start a download from any source: an HTTP one, an S3 or IPFS source, a set of mirrors, or your own.
pub fn from<S>(source: S) -> (download: Download<'static, S, ()>)
    ensures
        download.source == source,
        is_default(download.options),
{
    Download { source, options: Options::default(), progress: &() }
}

impl<'p, S, P: Progress> Download<'p, S, P> {
    /// The maximum number of chunks fetched in parallel (default 5). Ignored by a source that cannot serve
    /// ranges.
    pub fn chunks(self, parts: u32) -> (d: Self)
        ensures
            d.source == self.source,
            d.progress == self.progress,
            d.options == (Options { parts, ..self.options }),
    {
        Download { options: Options { parts, ..self.options }, ..self }
    }

    /// Retries per dropped chunk, each resuming from the offset it reached (default 10).
    pub fn tries(self, retries: u32) -> (d: Self)
        ensures
            d.source == self.source,
            d.progress == self.progress,
            d.options == (Options { retries, ..self.options }),
    {
        Download { options: Options { retries, ..self.options }, ..self }
    }

    /// The checksum algorithm to verify with, or [`Checksum::Skip`] (default SHA-256).
    pub fn checksum(self, checksum: Checksum) -> (d: Self)
        ensures
            d.source == self.source,
            d.progress == self.progress,
            d.options == (Options { checksum, ..self.options }),
    {
        Download { options: Options { checksum, ..self.options }, ..self }
    }

    /// Fail a read that stalls for this long, so a retry can resume the chunk (default: wait forever).
    pub fn timeout(self, timeout: Duration) -> (d: Self)
        ensures
            d.source == self.source,
            d.progress == self.progress,
            d.options == (Options { timeout: Some(timeout), ..self.options }),
    {
        Download { options: Options { timeout: Some(timeout), ..self.options }, ..self }
    }

    /// Resume an interrupted download from the partial beside the output (default off). Requires a
    /// range-capable source and a file output.
    pub fn resume(self) -> (d: Self)
        ensures
            d.source == self.source,
            d.progress == self.progress,
            d.options == (Options { resume: true, ..self.options }),
    {
        Download { options: Options { resume: true, ..self.options }, ..self }
    }

    /// Fetch as a single ordered stream instead of parallel chunks: one connection, hashed inline, written
    /// straight to the sink with no scratch. Slower than the parallel default, but it holds no bytes on disk
    /// and delivers live, so a huge download can be piped to a consumer.
    pub fn sequential(self) -> (d: Self)
        ensures
            d.source == self.source,
            d.progress == self.progress,
            d.options == (Options { sequential: true, ..self.options }),
    {
        Download { options: Options { sequential: true, ..self.options }, ..self }
    }

    /// Report progress to `progress` as bytes are received and verified. With none set, nothing is reported.
    pub fn progress<'q, Q: Progress>(self, progress: &'q Q) -> (d: Download<'q, S, Q>)
        ensures
            d.source == self.source,
            d.progress == progress,
            d.options == self.options,
    {
        Download { source: self.source, options: self.options, progress }
    }
}

/// A download that nothing is asked of is fetched in five chunks, each retried ten times, verified with SHA-256,
/// without a timeout, neither resumed nor sequential.
pub proof fn law_defaults(options: Options)
    requires
        is_default(options),
    ensures
        options.parts == 5 && options.retries == 10 && options.checksum == Checksum::Sha256,
        options.timeout is None && !options.resume && !options.sequential,
{
}

} // verus!

//! Where a download's verified bytes go.

use vstd::prelude::*;

verus! {

/// Where a download's verified bytes go.
///
/// A download scatters and verifies into a seekable scratch, then finalizes to the chosen sink. A sink with a
/// file ([`Output::File`] or [`Output::Tee`]) leaves a persistent `.xget` and so is resumable; a lone
/// [`Output::Writer`] or an [`Output::Discard`] has nothing to come back to and runs fresh.
///
/// A sink is at heart a writer; the one thing a file adds is a persistent, resumable artifact. So there is
/// exactly one composition worth having, [`Output::Tee`]: keep a resumable file and pass the same verified
/// bytes to one writer.
pub enum Output<F, W> {
    /// Persist to a file: scatter into `<path>.xget`, atomic-rename on success. Resumable.
    File(F),
    /// Stream verified bytes to a writer (stdout, a socket, a child's stdin). Not resumable.
    Writer(W),
    /// Verify and keep nothing (a speed test, or /dev/null). Not resumable.
    Discard,
    /// Persist to a resumable file and hand the same verified bytes to a writer: the file is finalized by
    /// rename, the writer receives the verified image. Resumable, via the file.
    Tee {
        /// The resumable file, finalized by atomic rename on success.
        file: F,
        /// A writer that receives the verified bytes.
        writer: W,
    },
}

/// How a finished scratch is delivered: copied to the writer first, where there is one, and then renamed to
/// the file or removed. A tee that is interrupted so leaves at most the one `.xget`.
#[derive(Clone, Copy, Debug, PartialEq, Eq, Structural)]
pub struct Delivery {
    /// Copy the verified image out to the writer.
    pub copy: bool,
    /// Rename the scratch to the file; otherwise remove it.
    pub rename: bool,
}

/// Where the bytes of a single stream go as they arrive.
#[derive(Clone, Copy, Debug, PartialEq, Eq, Structural)]
pub enum Target {
    /// To the scratch, which is delivered afterwards.
    Scratch,
    /// To the writer, live.
    Writer,
    /// Nowhere.
    Nowhere,
}

impl<F, W> Output<F, W> {
    /// Persist the download to `path`, scattering into `<path>.xget` and atomic-renaming on success.
    pub fn file(path: F) -> (o: Self)
        ensures
            o == Output::<F, W>::File(path),
    {
        Output::File(path)
    }

    /// Stream the download's verified bytes to `writer` as they are confirmed.
    pub fn writer(writer: W) -> (o: Self)
        ensures
            o == Output::<F, W>::Writer(writer),
    {
        Output::Writer(writer)
    }

    /// Persist to a resumable `file` and also hand the verified bytes to `writer`: keep a copy and pipe it
    /// onward at once.
    pub fn tee(file: F, writer: W) -> (o: Self)
        ensures
            o == (Output::<F, W>::Tee { file, writer }),
    {
        Output::Tee { file, writer }
    }

    /// How a finished scratch gets to this sink: it is copied to a writer, and renamed to a file.
    pub open spec fn delivered(self) -> Delivery {
        Delivery { copy: self is Writer || self is Tee, rename: self.kept() is Some }
    }

    /// Where a single stream is written.
    pub open spec fn streamed_to(self) -> Target {
        match self {
            Output::File(_) => Target::Scratch,
            Output::Tee { .. } => Target::Scratch,
            Output::Writer(_) => Target::Writer,
            Output::Discard => Target::Nowhere,
        }
    }

    /// The file in the sink, if any: a lone file or the file half of a tee. Its presence is what lets a run
    /// persist (and so resume); its `.xget` is the scratch.
    pub open spec fn kept(self) -> Option<F> {
        match self {
            Output::File(path) => Some(path),
            Output::Tee { file, .. } => Some(file),
            _ => None,
        }
    }

    /// The file in the sink, if any.
    pub fn first_file(&self) -> (file: Option<&F>)
        ensures
            match file {
                Some(file) => self.kept() == Some(*file),
                None => self.kept() is None,
            },
    {
        match self {
            Output::File(path) => Some(path),
            Output::Tee { file, .. } => Some(file),
            Output::Writer(_) | Output::Discard => None,
        }
    }

    /// How the finished scratch is delivered to this sink.
    pub fn delivery(&self) -> (d: Delivery)
        ensures
            d == self.delivered(),
    {
        match self {
            Output::File(_) => Delivery { copy: false, rename: true },
            Output::Writer(_) => Delivery { copy: true, rename: false },
            Output::Tee { .. } => Delivery { copy: true, rename: true },
            Output::Discard => Delivery { copy: false, rename: false },
        }
    }

    /// Where the bytes of a single stream go: a file or a tee to the scratch (then delivered), a lone writer
    /// live with no scratch, a discard nowhere.
    pub fn target(&self) -> (t: Target)
        ensures
            t == self.streamed_to(),
    {
        match self {
            Output::File(_) | Output::Tee { .. } => Target::Scratch,
            Output::Writer(_) => Target::Writer,
            Output::Discard => Target::Nowhere,
        }
    }
}

/// What a sink keeps is what it was made to keep: a file keeps itself, a tee its file, and neither a writer nor
/// a discard keeps anything.
pub proof fn law_sinks_keep_their_files<F, W>(file: F, writer: W)
    ensures
        Output::<F, W>::File(file).kept() == Some(file),
        (Output::<F, W>::Tee { file, writer }).kept() == Some(file),
        Output::<F, W>::Writer(writer).kept() is None,
        Output::<F, W>::Discard.kept() is None,
{
}

/// A file gets what was verified by a rename, a writer by a copy, a tee by both, and a discard gets nothing. A
/// single stream goes to the scratch of what keeps a file, and straight to a writer.
pub proof fn law_sinks_get_what_was_verified<F, W>(file: F, writer: W)
    ensures
        ({
            let d = Output::<F, W>::File(file).delivered();
            d.rename && !d.copy && Output::<F, W>::File(file).streamed_to() == Target::Scratch
        }),
        ({
            let d = Output::<F, W>::Writer(writer).delivered();
            !d.rename && d.copy && Output::<F, W>::Writer(writer).streamed_to() == Target::Writer
        }),
        ({
            let tee = Output::<F, W>::Tee { file, writer };
            tee.delivered().rename && tee.delivered().copy && tee.streamed_to() == Target::Scratch
        }),
        ({
            let d = Output::<F, W>::Discard.delivered();
            !d.rename && !d.copy && Output::<F, W>::Discard.streamed_to() == Target::Nowhere
        }),
{
}

} // verus!

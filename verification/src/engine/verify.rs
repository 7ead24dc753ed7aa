//! Reading a scratch back in order, and certifying what was read.

use crate::checksum::Checksum;
use crate::digest;
use crate::digest::Digester;
use crate::engine::scatter;
use crate::engine::scatter::chunk_of;
use crate::engine::scatter::contiguous_run;
use crate::error;
use crate::error::Error;
use crate::plan;
use crate::range;
use crate::range::ByteRange;
use crate::text;
use vstd::prelude::*;

verus! {

/// A count of bytes to read from a file in order, in pieces no larger than a buffer.
#[derive(Debug)]
pub struct ReadBack {
    count: u64,
    remaining: u64,
}

impl ReadBack {
    /// How many bytes are to be read in all.
    pub closed spec fn count(self) -> u64 {
        self.count
    }

    /// How many are still to be read.
    pub closed spec fn remaining(self) -> u64 {
        self.remaining
    }

    /// No more is left than there was.
    pub open spec fn wf(self) -> bool {
        self.remaining() <= self.count()
    }

    /// Read `count` bytes.
    pub fn new(count: u64) -> (r: ReadBack)
        ensures
            r.wf(),
            r.count() == count,
            r.remaining() == count,
    {
        ReadBack { count, remaining: count }
    }

    /// How many bytes to ask for next, given the size of the buffer: none once all were read.
    pub fn want(&self, buffer: usize) -> (want: usize)
        ensures
            want as int == if self.remaining() <= buffer {
                self.remaining() as int
            } else {
                buffer as int
            },
    {
        if self.remaining <= buffer as u64 {
            self.remaining as usize
        } else {
            buffer
        }
    }

    /// `read` bytes came. A read of nothing means that the file ended too early.
    pub fn got(&mut self, read: usize) -> (r: Result<(), Error>)
        requires
            old(self).wf(),
            read <= old(self).remaining(),
        ensures
            final(self).wf(),
            final(self).count() == old(self).count(),
            final(self).remaining() == old(self).remaining() - read,
            match r {
                Ok(()) => read > 0,
                Err(e) => read == 0 && e == (Error::LengthMismatch {
                    expected: old(self).count(),
                    received: (old(self).count() - old(self).remaining()) as u64,
                }),
            },
    {
        if read == 0 {
            return Err(
                Error::LengthMismatch {
                    expected: self.count,
                    received: self.count - self.remaining,
                },
            );
        }
        self.remaining = self.remaining - read as u64;
        Ok(())
    }
}

/// Reads a scratch back from offset zero and hashes the contiguous, hole-free prefix as it grows: the
/// resumed prefix first, then bytes as the earliest unfinished chunk receives them. It gates the total
/// length, so the digest certifies the whole file.
pub struct Verifier {
    ranges: Vec<ByteRange>,
    total: u64,
    checksum: Checksum,
    hasher: Option<Digester>,
    hashed: u64,
    frontier: u64,
    span: ReadBack,
    fed: Ghost<Seq<u8>>,
}

impl View for Verifier {
    type V = Seq<u8>;

    /// The bytes verified so far.
    closed spec fn view(&self) -> Seq<u8> {
        self.fed@
    }
}

impl Verifier {
    /// The chunks.
    pub closed spec fn ranges(self) -> Seq<ByteRange> {
        self.ranges@
    }

    /// The resource's length.
    pub closed spec fn total(self) -> u64 {
        self.total
    }

    /// The algorithm.
    pub closed spec fn checksum(self) -> Checksum {
        self.checksum
    }

    /// How far the contiguous run of received bytes reached when it was last looked at.
    pub closed spec fn frontier(self) -> u64 {
        self.frontier
    }

    /// The read under way.
    pub closed spec fn span(self) -> ReadBack {
        self.span
    }

    /// What was hashed is what was fed, and nothing past the frontier was or is being read.
    pub closed spec fn wf(self) -> bool {
        &&& range::tiles(self.ranges@, 0, self.total as int)
        &&& self.hashed == self.fed@.len()
        &&& self.span.wf()
        &&& self.hashed + self.span.remaining() <= self.frontier <= self.total
        &&& digest::hashable(self.checksum, self.total as int)
        &&& match self.hasher {
            Some(hasher) => hasher.wf() && hasher.algorithm() == self.checksum && hasher@ == self.fed@
                && self.checksum != Checksum::Skip,
            None => self.checksum == Checksum::Skip,
        }
    }

    /// What was verified never exceeds the frontier, and the frontier never exceeds the resource.
    pub proof fn law_verified_stays_behind_the_frontier(self)
        requires
            self.wf(),
        ensures
            self@.len() + self.span().remaining() <= self.frontier() <= self.total(),
            self.span().wf(),
            range::tiles(self.ranges(), 0, self.total() as int),
    {
    }

    /// Start at offset zero of a file of `total` bytes that `ranges` tile.
    pub fn new(ranges: Vec<ByteRange>, total: u64, checksum: Checksum) -> (v: Verifier)
        requires
            range::tiles(ranges@, 0, total as int),
            digest::hashable(checksum, total as int),
        ensures
            v.wf(),
            v.ranges() == ranges@,
            v.total() == total,
            v.checksum() == checksum,
            v.frontier() == 0,
            v.span().remaining() == 0,
            v@ == Seq::<u8>::empty(),
    {
        Verifier {
            ranges,
            total,
            checksum,
            hasher: checksum.hasher(),
            hashed: 0,
            frontier: 0,
            span: ReadBack::new(0),
            fed: Ghost(Seq::empty()),
        }
    }

    /// Look at how far the fetchers have come. A chunk that failed for good ends the verification.
    pub fn survey(&mut self, received: &[u64], failed: bool) -> (r: Result<(), Error>)
        requires
            old(self).wf(),
            old(self).span().remaining() == 0,
            received@.len() == old(self).ranges().len(),
            forall|i: int|
                0 <= i < received@.len() ==> (#[trigger] received@[i]) <= old(self).ranges()[i].size(),
        ensures
            final(self).wf(),
            final(self).ranges() == old(self).ranges(),
            final(self).total() == old(self).total(),
            final(self).checksum() == old(self).checksum(),
            final(self).span() == old(self).span(),
            final(self)@ == old(self)@,
            match r {
                Ok(()) => {
                    let run = scatter::run_of(received@, old(self).ranges(), 0);
                    !failed && final(self).frontier() == if run < old(self)@.len() {
                        old(self)@.len()
                    } else {
                        run
                    }
                },
                Err(e) => failed && final(self).frontier() == old(self).frontier() && error::is_detail(
                    e,
                    "a chunk failed before it could be verified"@,
                ),
            },
    {
        if failed {
            return Err(Error::detail("a chunk failed before it could be verified"));
        }
        proof {
            scatter::lemma_run(received@, self.ranges@, self.total, 0);
        }
        let run = contiguous_run(received, &self.ranges);
        self.frontier = if run < self.hashed {
            self.hashed
        } else {
            run
        };
        Ok(())
    }

    /// The next bytes to read: how many, and of which chunk, so that each read is one chunk's bytes to
    /// report. Nothing once the frontier is reached.
    pub fn next_span(&mut self) -> (next: Option<(usize, u64)>)
        requires
            old(self).wf(),
            old(self).span().remaining() == 0,
        ensures
            final(self).wf(),
            final(self).ranges() == old(self).ranges(),
            final(self).total() == old(self).total(),
            final(self).checksum() == old(self).checksum(),
            final(self).frontier() == old(self).frontier(),
            final(self)@ == old(self)@,
            match next {
                Some((index, want)) => {
                    let at = old(self)@.len();
                    let end = old(self).ranges()[index as int].end;
                    &&& at < old(self).frontier()
                    &&& scatter::chunk_at(old(self).ranges(), at as u64, index as int)
                    &&& want as int == if old(self).frontier() <= end {
                        old(self).frontier() - at
                    } else {
                        end - at
                    }
                    &&& want > 0
                    &&& final(self).span().count() == want
                    &&& final(self).span().remaining() == want
                },
                None => old(self)@.len() == old(self).frontier() && final(self).span() == old(
                    self,
                ).span(),
            },
    {
        if self.hashed >= self.frontier {
            return None;
        }
        let index = chunk_of(&self.ranges, self.hashed);
        proof {
            let at = self.hashed;
            plan::lemma_tiles_cover(self.ranges@, 0, self.total as int, at as int);
            let i = choose|i: int|
                0 <= i < self.ranges@.len() && #[trigger] self.ranges@[i].has_offset(at as int);
            assert forall|j: int| 0 <= j < i implies (#[trigger] self.ranges@[j]).end <= at by {
                plan::lemma_tiles_ordered(self.ranges@, 0, self.total as int, j, i);
            }
            assert(scatter::chunk_at(self.ranges@, at, i));
        }
        let end = self.ranges[index].end;
        let want = if self.frontier <= end {
            self.frontier - self.hashed
        } else {
            end - self.hashed
        };
        self.span = ReadBack::new(want);
        Some((index, want))
    }

    /// How many bytes to read next, given the size of the buffer.
    pub fn want(&self, buffer: usize) -> (want: usize)
        ensures
            want as int == if self.span().remaining() <= buffer {
                self.span().remaining() as int
            } else {
                buffer as int
            },
    {
        self.span.want(buffer)
    }

    /// `bytes` were read at the place that was reached: fold them into the digest. A read of nothing means
    /// that the file ended too early.
    pub fn absorb(&mut self, bytes: &[u8]) -> (r: Result<(), Error>)
        requires
            old(self).wf(),
            bytes@.len() <= old(self).span().remaining(),
        ensures
            final(self).wf(),
            final(self).ranges() == old(self).ranges(),
            final(self).total() == old(self).total(),
            final(self).checksum() == old(self).checksum(),
            final(self).frontier() == old(self).frontier(),
            final(self)@ == old(self)@ + bytes@,
            final(self).span().count() == old(self).span().count(),
            final(self).span().remaining() == old(self).span().remaining() - bytes@.len(),
            match r {
                Ok(()) => bytes@.len() > 0,
                Err(e) => bytes@.len() == 0 && e == (Error::LengthMismatch {
                    expected: old(self).span().count(),
                    received: (old(self).span().count() - old(self).span().remaining()) as u64,
                }),
            },
    {
        match self.span.got(bytes.len()) {
            Ok(()) => {},
            Err(e) => {
                assert(self.fed@ + bytes@ =~= self.fed@);
                return Err(e);
            },
        }
        match &mut self.hasher {
            Some(hasher) => hasher.update(bytes),
            None => {},
        }
        self.hashed = self.hashed + bytes.len() as u64;
        proof {
            self.fed@ = self.fed@ + bytes@;
        }
        Ok(())
    }

    /// Whether the whole resource was read.
    pub fn complete(&self) -> (r: bool)
        requires
            self.wf(),
        ensures
            r == (self@.len() == self.total()),
    {
        self.hashed >= self.total
    }

    /// The digest of the whole resource, or nothing where hashing is skipped.
    pub fn certify(self) -> (hash: Option<String>)
        requires
            self.wf(),
            self@.len() == self.total(),
        ensures
            text::model::opt_view(hash) == digest::checksum_of(self.checksum(), self@),
    {
        match self.hasher {
            Some(hasher) => Some(hasher.finalize_hex()),
            None => None,
        }
    }
}

/// Reading a file in order from the start verifies a prefix of the file: what was read of it before,
/// followed by the next bytes of it, is a longer prefix.
pub proof fn law_verified_is_a_prefix(image: Seq<u8>, verified: Seq<u8>, piece: Seq<u8>)
    requires
        verified.len() + piece.len() <= image.len(),
        verified == image.take(verified.len() as int),
        piece == image.subrange(verified.len() as int, (verified.len() + piece.len()) as int),
    ensures
        verified + piece == image.take((verified.len() + piece.len()) as int),
{
    assert(verified + piece =~= image.take((verified.len() + piece.len()) as int));
}

/// A digest certifies the resource: where a verifier has read the whole of a file that holds the body, the
/// digest it returns is the body's, and the length that was gated is the body's.
pub proof fn law_certified_digest_is_of_the_resource(
    verifier: Verifier,
    image: Seq<u8>,
    body: Seq<u8>,
    hash: Option<Seq<char>>,
)
    requires
        verifier@.len() == verifier.total(),
        verifier@ == image.take(verifier.total() as int),
        verifier.total() <= image.len(),
        image.take(verifier.total() as int) == body,
        hash == digest::checksum_of(verifier.checksum(), verifier@),
    ensures
        hash == digest::checksum_of(verifier.checksum(), body),
        body.len() == verifier.total(),
{
}

} // verus!

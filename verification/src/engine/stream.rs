//! A download as one stream, hashed inline as it is written.

use crate::checksum::Checksum;
use crate::digest;
use crate::digest::can_hash;
use crate::digest::Digester;
use crate::error::Error;
use crate::text;
use vstd::prelude::*;

verus! {

/// Fetches a resource in one in-order pass (no scatter, no re-read: a single stream is already in order),
/// hashing every byte inline and gating on the declared length.
pub struct StreamTask {
    total: u64,
    checksum: Checksum,
    hasher: Option<Digester>,
    written: u64,
    fed: Ghost<Seq<u8>>,
}

impl View for StreamTask {
    type V = Seq<u8>;

    /// The bytes streamed so far.
    closed spec fn view(&self) -> Seq<u8> {
        self.fed@
    }
}

/// Whether this is what a stream of these bytes ends with, given the declared length.
pub open spec fn certified(
    bytes: Seq<u8>,
    total: u64,
    checksum: Checksum,
    hash: Result<Option<String>, Error>,
) -> bool {
    match hash {
        Ok(hash) => bytes.len() == total && text::model::opt_view(hash) == digest::checksum_of(
            checksum,
            bytes,
        ),
        Err(e) => bytes.len() != total && e == (Error::LengthMismatch {
            expected: total,
            received: bytes.len() as u64,
        }),
    }
}

impl StreamTask {
    /// The declared length.
    pub closed spec fn total(self) -> u64 {
        self.total
    }

    /// The algorithm.
    pub closed spec fn checksum(self) -> Checksum {
        self.checksum
    }

    /// What was hashed is what was streamed.
    pub closed spec fn wf(self) -> bool {
        &&& self.written == self.fed@.len()
        &&& digest::hashable(self.checksum, self.written as int)
        &&& match self.hasher {
            Some(hasher) => hasher.wf() && hasher.algorithm() == self.checksum && hasher@ == self.fed@
                && self.checksum != Checksum::Skip,
            None => self.checksum == Checksum::Skip,
        }
    }

    /// Start on a resource of a declared length.
    pub fn new(total: u64, checksum: Checksum) -> (task: StreamTask)
        ensures
            task.wf(),
            task.total() == total,
            task.checksum() == checksum,
            task@ == Seq::<u8>::empty(),
    {
        StreamTask {
            total,
            checksum,
            hasher: checksum.hasher(),
            written: 0,
            fed: Ghost(Seq::empty()),
        }
    }

    /// Whether `len` more bytes can be counted and hashed.
    pub fn has_room(&self, len: usize) -> (r: bool)
        requires
            self.wf(),
        ensures
            r == (self@.len() + len <= u64::MAX && digest::hashable(
                self.checksum(),
                (self@.len() + len) as int,
            )),
    {
        match self.written.checked_add(len as u64) {
            Some(sum) => can_hash(self.checksum, sum),
            None => false,
        }
    }

    /// `bytes` came next in the stream.
    pub fn absorb(&mut self, bytes: &[u8])
        requires
            old(self).wf(),
            old(self)@.len() + bytes@.len() <= u64::MAX,
            digest::hashable(old(self).checksum(), (old(self)@.len() + bytes@.len()) as int),
        ensures
            final(self).wf(),
            final(self).total() == old(self).total(),
            final(self).checksum() == old(self).checksum(),
            final(self)@ == old(self)@ + bytes@,
    {
        match &mut self.hasher {
            Some(hasher) => hasher.update(bytes),
            None => {},
        }
        self.written = self.written + bytes.len() as u64;
        proof {
            self.fed@ = self.fed@ + bytes@;
        }
    }

    /// The stream ended: the digest of exactly what came, if that is as long as was declared.
    pub fn certify(self) -> (hash: Result<Option<String>, Error>)
        requires
            self.wf(),
        ensures
            certified(self@, self.total(), self.checksum(), hash),
    {
        if self.written != self.total {
            return Err(Error::LengthMismatch { expected: self.total, received: self.written });
        }
        match self.hasher {
            Some(hasher) => Ok(Some(hasher.finalize_hex())),
            None => Ok(None),
        }
    }
}

/// A stream is certified exactly where it is as long as was declared, with the digest of what came, unless hashing
/// is skipped; a stream of any other length is an error that says so.
pub proof fn law_stream_is_gated_on_its_length(
    bytes: Seq<u8>,
    total: u64,
    checksum: Checksum,
    hash: Result<Option<String>, Error>,
)
    requires
        certified(bytes, total, checksum, hash),
        bytes.len() <= u64::MAX,
    ensures
        hash is Ok <==> bytes.len() == total,
        hash is Err ==> hash == Err::<Option<String>, Error>(
            Error::LengthMismatch { expected: total, received: bytes.len() as u64 },
        ),
        hash is Ok ==> (hash->Ok_0 is None <==> checksum == Checksum::Skip),
        hash is Ok && checksum != Checksum::Skip ==> hash->Ok_0->0@ == digest::hex_of(
            digest::digest_of(checksum, bytes),
        ),
{
}

} // verus!

//! Streaming hashers, and what they compute.
//!
//! The hash functions themselves come from the `md5`, `sha1`, `sha2` and `blake3` crates, and the
//! hexadecimal notation from `hex`. Of a hash function only this is taken as given: a state that was fed some bytes,
//! in pieces of any size, yields a digest that depends on those bytes alone.

use crate::checksum::Checksum;
use digest::DynDigest;
use vstd::prelude::*;

verus! {

/// The state of an MD5 computation.
#[verifier::external_type_specification]
#[verifier::external_body]
pub struct ExMd5(md5::Md5);

/// The state of a SHA-1 computation.
#[verifier::external_type_specification]
#[verifier::external_body]
pub struct ExSha1(sha1::Sha1);

/// The state of a SHA-256 computation.
#[verifier::external_type_specification]
#[verifier::external_body]
pub struct ExSha256(sha2::Sha256);

/// The state of a SHA-512 computation.
#[verifier::external_type_specification]
#[verifier::external_body]
pub struct ExSha512(sha2::Sha512);

/// The state of a BLAKE3 computation.
#[verifier::external_type_specification]
#[verifier::external_body]
pub struct ExBlake3(blake3::Hasher);

/// Whether the state was reached by feeding `bytes`, in pieces of any size, to a fresh one.
pub uninterp spec fn md5_fed(state: md5::Md5, bytes: Seq<u8>) -> bool;

/// The MD5 digest of `bytes`.
pub uninterp spec fn md5_digest(bytes: Seq<u8>) -> Seq<u8>;

/// Whether the state was reached by feeding `bytes`, in pieces of any size, to a fresh one.
pub uninterp spec fn sha1_fed(state: sha1::Sha1, bytes: Seq<u8>) -> bool;

/// The SHA-1 digest of `bytes`.
pub uninterp spec fn sha1_digest(bytes: Seq<u8>) -> Seq<u8>;

/// Whether the state was reached by feeding `bytes`, in pieces of any size, to a fresh one.
pub uninterp spec fn sha256_fed(state: sha2::Sha256, bytes: Seq<u8>) -> bool;

/// The SHA-256 digest of `bytes`.
pub uninterp spec fn sha256_digest(bytes: Seq<u8>) -> Seq<u8>;

/// Whether the state was reached by feeding `bytes`, in pieces of any size, to a fresh one.
pub uninterp spec fn sha512_fed(state: sha2::Sha512, bytes: Seq<u8>) -> bool;

/// The SHA-512 digest of `bytes`.
pub uninterp spec fn sha512_digest(bytes: Seq<u8>) -> Seq<u8>;

/// Whether the state was reached by feeding `bytes`, in pieces of any size, to a fresh one.
pub uninterp spec fn blake3_fed(state: blake3::Hasher, bytes: Seq<u8>) -> bool;

/// The BLAKE3 digest of `bytes`.
pub uninterp spec fn blake3_digest(bytes: Seq<u8>) -> Seq<u8>;

/// The number of bytes from which on a message is too long for SHA-1 and SHA-256, which count the bits of
/// a message in 64 bits.
pub const MAX_MESSAGE: u64 = 0x2000_0000_0000_0000;

/// Whether an algorithm can hash a message of `len` bytes.
pub open spec fn hashable(checksum: Checksum, len: int) -> bool {
    match checksum {
        Checksum::Sha1 | Checksum::Sha256 => len < MAX_MESSAGE,
        _ => len <= u64::MAX,
    }
}

/// Whether `checksum` can hash a message of `len` bytes.
pub fn can_hash(checksum: Checksum, len: u64) -> (r: bool)
    ensures
        r == hashable(checksum, len as int),
{
    match checksum {
        Checksum::Sha1 | Checksum::Sha256 => len < MAX_MESSAGE,
        _ => true,
    }
}

/// `Md5::default`: a state that has been fed nothing.
#[verifier::external_body]
fn md5_new() -> (state: md5::Md5)
    ensures
        md5_fed(state, Seq::empty()),
{
    md5::Md5::default()
}

/// `DynDigest::update` of MD5: feeds `data` after what the state was fed before.
#[verifier::external_body]
fn md5_update(state: &mut md5::Md5, data: &[u8])
    ensures
        forall|bytes: Seq<u8>|
            #![trigger md5_fed(*old(state), bytes)]
            md5_fed(*old(state), bytes) ==> md5_fed(*final(state), bytes + data@),
{
    DynDigest::update(state, data);
}

/// `DynDigest::finalize` of MD5: the digest of what the state was fed, of 16 bytes.
#[verifier::external_body]
fn md5_finalize(state: md5::Md5) -> (out: Vec<u8>)
    ensures
        forall|bytes: Seq<u8>|
            #![trigger md5_fed(state, bytes)]
            md5_fed(state, bytes) ==> out@ == md5_digest(bytes),
        out@.len() == 16,
{
    DynDigest::finalize(Box::new(state)).into_vec()
}

/// `Sha1::default`: a state that has been fed nothing.
#[verifier::external_body]
fn sha1_new() -> (state: sha1::Sha1)
    ensures
        sha1_fed(state, Seq::empty()),
{
    sha1::Sha1::default()
}

/// `DynDigest::update` of SHA-1: feeds `data` after what the state was fed before.
#[verifier::external_body]
fn sha1_update(state: &mut sha1::Sha1, data: &[u8])
    requires
        exists|bytes: Seq<u8>| sha1_fed(*old(state), bytes) && bytes.len() + data@.len() < MAX_MESSAGE,
    ensures
        forall|bytes: Seq<u8>|
            #![trigger sha1_fed(*old(state), bytes)]
            sha1_fed(*old(state), bytes) ==> sha1_fed(*final(state), bytes + data@),
{
    DynDigest::update(state, data);
}

/// `DynDigest::finalize` of SHA-1: the digest of what the state was fed, of 20 bytes. The bits that it was
/// fed must be countable in 64 bits.
#[verifier::external_body]
fn sha1_finalize(state: sha1::Sha1) -> (out: Vec<u8>)
    requires
        exists|bytes: Seq<u8>| sha1_fed(state, bytes) && bytes.len() < MAX_MESSAGE,
    ensures
        forall|bytes: Seq<u8>|
            #![trigger sha1_fed(state, bytes)]
            sha1_fed(state, bytes) ==> out@ == sha1_digest(bytes),
        out@.len() == 20,
{
    DynDigest::finalize(Box::new(state)).into_vec()
}

/// `Sha256::default`: a state that has been fed nothing.
#[verifier::external_body]
fn sha256_new() -> (state: sha2::Sha256)
    ensures
        sha256_fed(state, Seq::empty()),
{
    sha2::Sha256::default()
}

/// `DynDigest::update` of SHA-256: feeds `data` after what the state was fed before.
#[verifier::external_body]
fn sha256_update(state: &mut sha2::Sha256, data: &[u8])
    requires
        exists|bytes: Seq<u8>| sha256_fed(*old(state), bytes) && bytes.len() + data@.len() < MAX_MESSAGE,
    ensures
        forall|bytes: Seq<u8>|
            #![trigger sha256_fed(*old(state), bytes)]
            sha256_fed(*old(state), bytes) ==> sha256_fed(*final(state), bytes + data@),
{
    DynDigest::update(state, data);
}

/// `DynDigest::finalize` of SHA-256: the digest of what the state was fed, of 32 bytes. The bits that it was
/// fed must be countable in 64 bits.
#[verifier::external_body]
fn sha256_finalize(state: sha2::Sha256) -> (out: Vec<u8>)
    requires
        exists|bytes: Seq<u8>| sha256_fed(state, bytes) && bytes.len() < MAX_MESSAGE,
    ensures
        forall|bytes: Seq<u8>|
            #![trigger sha256_fed(state, bytes)]
            sha256_fed(state, bytes) ==> out@ == sha256_digest(bytes),
        out@.len() == 32,
{
    DynDigest::finalize(Box::new(state)).into_vec()
}

/// `Sha512::default`: a state that has been fed nothing.
#[verifier::external_body]
fn sha512_new() -> (state: sha2::Sha512)
    ensures
        sha512_fed(state, Seq::empty()),
{
    sha2::Sha512::default()
}

/// `DynDigest::update` of SHA-512: feeds `data` after what the state was fed before.
#[verifier::external_body]
fn sha512_update(state: &mut sha2::Sha512, data: &[u8])
    requires
        exists|bytes: Seq<u8>| sha512_fed(*old(state), bytes) && bytes.len() + data@.len() <= u64::MAX,
    ensures
        forall|bytes: Seq<u8>|
            #![trigger sha512_fed(*old(state), bytes)]
            sha512_fed(*old(state), bytes) ==> sha512_fed(*final(state), bytes + data@),
{
    DynDigest::update(state, data);
}

/// `DynDigest::finalize` of SHA-512: the digest of what the state was fed, of 64 bytes.
#[verifier::external_body]
fn sha512_finalize(state: sha2::Sha512) -> (out: Vec<u8>)
    requires
        exists|bytes: Seq<u8>| sha512_fed(state, bytes) && bytes.len() <= u64::MAX,
    ensures
        forall|bytes: Seq<u8>|
            #![trigger sha512_fed(state, bytes)]
            sha512_fed(state, bytes) ==> out@ == sha512_digest(bytes),
        out@.len() == 64,
{
    DynDigest::finalize(Box::new(state)).into_vec()
}

/// `blake3::Hasher::new`: a state that has been fed nothing.
#[verifier::external_body]
fn blake3_new() -> (state: blake3::Hasher)
    ensures
        blake3_fed(state, Seq::empty()),
{
    blake3::Hasher::new()
}

/// `blake3::Hasher::update`: feeds `data` after what the state was fed before.
#[verifier::external_body]
fn blake3_update(state: &mut blake3::Hasher, data: &[u8])
    requires
        exists|bytes: Seq<u8>| blake3_fed(*old(state), bytes) && bytes.len() + data@.len() <= u64::MAX,
    ensures
        forall|bytes: Seq<u8>|
            #![trigger blake3_fed(*old(state), bytes)]
            blake3_fed(*old(state), bytes) ==> blake3_fed(*final(state), bytes + data@),
{
    blake3::Hasher::update(state, data);
}

/// `blake3::Hasher::finalize`, then `Hash::to_hex`: the digest of what the state was fed, of 32 bytes, in
/// lowercase hexadecimal.
#[verifier::external_body]
fn blake3_finalize_hex(state: blake3::Hasher) -> (out: String)
    requires
        exists|bytes: Seq<u8>| blake3_fed(state, bytes) && bytes.len() <= u64::MAX,
    ensures
        forall|bytes: Seq<u8>|
            #![trigger blake3_fed(state, bytes)]
            blake3_fed(state, bytes) ==> out@ == hex_of(blake3_digest(bytes)),
        out@.len() == 64,
{
    state.finalize().to_hex().to_string()
}

/// `hex::encode`: two lowercase hexadecimal digits per byte, the higher first.
#[verifier::external_body]
pub(crate) fn hex_encode(bytes: &[u8]) -> (out: String)
    ensures
        out@ == hex_of(bytes@),
{
    hex::encode(bytes)
}

/// The lowercase hexadecimal digit that stands for `d`.
pub open spec fn hex_digit(d: int) -> char {
    if d < 10 {
        ('0' as int + d) as char
    } else {
        ('a' as int + d - 10) as char
    }
}

/// `bytes` in lowercase hexadecimal, two digits per byte.
pub open spec fn hex_of(bytes: Seq<u8>) -> Seq<char> {
    Seq::new(
        2 * bytes.len(),
        |i: int|
            if i % 2 == 0 {
                hex_digit(bytes[i / 2] as int / 16)
            } else {
                hex_digit(bytes[i / 2] as int % 16)
            },
    )
}

/// The digest of `bytes` under an algorithm: none for [`Checksum::Skip`].
pub open spec fn digest_of(checksum: Checksum, bytes: Seq<u8>) -> Seq<u8> {
    match checksum {
        Checksum::Skip => Seq::empty(),
        Checksum::Md5 => md5_digest(bytes),
        Checksum::Sha1 => sha1_digest(bytes),
        Checksum::Sha256 => sha256_digest(bytes),
        Checksum::Sha512 => sha512_digest(bytes),
        Checksum::Blake3 => blake3_digest(bytes),
    }
}

/// How many bytes a digest has.
pub open spec fn digest_len(checksum: Checksum) -> nat {
    match checksum {
        Checksum::Skip => 0,
        Checksum::Md5 => 16,
        Checksum::Sha1 => 20,
        Checksum::Sha256 => 32,
        Checksum::Sha512 => 64,
        Checksum::Blake3 => 32,
    }
}

/// The lowercase hex digest of `bytes`, or nothing where hashing is skipped.
pub open spec fn checksum_of(checksum: Checksum, bytes: Seq<u8>) -> Option<Seq<char>> {
    if checksum == Checksum::Skip {
        None
    } else {
        Some(hex_of(digest_of(checksum, bytes)))
    }
}

enum State {
    Md5(md5::Md5),
    Sha1(sha1::Sha1),
    Sha256(sha2::Sha256),
    Sha512(sha2::Sha512),
    Blake3(blake3::Hasher),
}

/// A streaming hasher that is fed bytes and finalized to a lowercase hex digest.
pub struct Digester {
    state: State,
    fed: Ghost<Seq<u8>>,
}

impl View for Digester {
    type V = Seq<u8>;

    /// The bytes fed so far.
    closed spec fn view(&self) -> Seq<u8> {
        self.fed@
    }
}

impl Digester {
    /// The algorithm.
    pub closed spec fn algorithm(self) -> Checksum {
        match self.state {
            State::Md5(_) => Checksum::Md5,
            State::Sha1(_) => Checksum::Sha1,
            State::Sha256(_) => Checksum::Sha256,
            State::Sha512(_) => Checksum::Sha512,
            State::Blake3(_) => Checksum::Blake3,
        }
    }

    /// The state is the one that the bytes fed so far lead to.
    pub closed spec fn wf(self) -> bool {
        match self.state {
            State::Md5(state) => md5_fed(state, self.fed@),
            State::Sha1(state) => sha1_fed(state, self.fed@),
            State::Sha256(state) => sha256_fed(state, self.fed@),
            State::Sha512(state) => sha512_fed(state, self.fed@),
            State::Blake3(state) => blake3_fed(state, self.fed@),
        }
    }

    pub(crate) fn md5() -> (h: Self)
        ensures
            h.wf(),
            h.algorithm() == Checksum::Md5,
            h@ == Seq::<u8>::empty(),
    {
        Digester { state: State::Md5(md5_new()), fed: Ghost(Seq::empty()) }
    }

    pub(crate) fn sha1() -> (h: Self)
        ensures
            h.wf(),
            h.algorithm() == Checksum::Sha1,
            h@ == Seq::<u8>::empty(),
    {
        Digester { state: State::Sha1(sha1_new()), fed: Ghost(Seq::empty()) }
    }

    pub(crate) fn sha256() -> (h: Self)
        ensures
            h.wf(),
            h.algorithm() == Checksum::Sha256,
            h@ == Seq::<u8>::empty(),
    {
        Digester { state: State::Sha256(sha256_new()), fed: Ghost(Seq::empty()) }
    }

    pub(crate) fn sha512() -> (h: Self)
        ensures
            h.wf(),
            h.algorithm() == Checksum::Sha512,
            h@ == Seq::<u8>::empty(),
    {
        Digester { state: State::Sha512(sha512_new()), fed: Ghost(Seq::empty()) }
    }

    pub(crate) fn blake3() -> (h: Self)
        ensures
            h.wf(),
            h.algorithm() == Checksum::Blake3,
            h@ == Seq::<u8>::empty(),
    {
        Digester { state: State::Blake3(blake3_new()), fed: Ghost(Seq::empty()) }
    }

    /// Fold `bytes` into the running digest.
    pub fn update(&mut self, bytes: &[u8])
        requires
            old(self).wf(),
            hashable(old(self).algorithm(), (old(self)@.len() + bytes@.len()) as int),
        ensures
            final(self).wf(),
            final(self).algorithm() == old(self).algorithm(),
            final(self)@ == old(self)@ + bytes@,
    {
        match &mut self.state {
            State::Md5(state) => md5_update(state, bytes),
            State::Sha1(state) => sha1_update(state, bytes),
            State::Sha256(state) => sha256_update(state, bytes),
            State::Sha512(state) => sha512_update(state, bytes),
            State::Blake3(state) => blake3_update(state, bytes),
        }
        proof {
            self.fed@ = self.fed@ + bytes@;
        }
    }

    /// Consume the hasher and return its lowercase hex digest.
    pub fn finalize_hex(self) -> (out: String)
        requires
            self.wf(),
            hashable(self.algorithm(), self@.len() as int),
        ensures
            out@ == hex_of(digest_of(self.algorithm(), self@)),
            out@.len() == 2 * digest_len(self.algorithm()),
    {
        match self.state {
            State::Md5(state) => hex_encode(&md5_finalize(state)),
            State::Sha1(state) => hex_encode(&sha1_finalize(state)),
            State::Sha256(state) => hex_encode(&sha256_finalize(state)),
            State::Sha512(state) => hex_encode(&sha512_finalize(state)),
            State::Blake3(state) => blake3_finalize_hex(state),
        }
    }
}

/// Any message of fewer than 2^61 bytes can be hashed with any algorithm, and any message whose length fits in 64
/// bits with all but SHA-1 and SHA-256.
pub proof fn law_messages_can_be_hashed(checksum: Checksum, len: u64)
    ensures
        len < 0x2000_0000_0000_0000 ==> hashable(checksum, len as int),
        checksum != Checksum::Sha1 && checksum != Checksum::Sha256 ==> hashable(checksum, len as int),
{
}

/// A digest is written in two lowercase hexadecimal digits per byte, the higher first, and different digests are
/// written differently.
pub proof fn law_hex_tells_the_digest(a: Seq<u8>, b: Seq<u8>)
    ensures
        hex_of(a).len() == 2 * a.len(),
        hex_of(a) == hex_of(b) ==> a == b,
{
    if hex_of(a) == hex_of(b) {
        assert(hex_of(a).len() == hex_of(b).len());
        assert forall|i: int| 0 <= i < a.len() implies a[i] == b[i] by {
            assert(hex_of(a)[2 * i] == hex_of(b)[2 * i]);
            assert(hex_of(a)[2 * i + 1] == hex_of(b)[2 * i + 1]);
            assert((2 * i) / 2 == i && (2 * i + 1) / 2 == i && (2 * i) % 2 == 0 && (2 * i + 1) % 2 == 1);
            lemma_hex_digit(a[i] as int / 16, b[i] as int / 16);
            lemma_hex_digit(a[i] as int % 16, b[i] as int % 16);
            assert(a[i] as int == 16 * (a[i] as int / 16) + a[i] as int % 16);
            assert(b[i] as int == 16 * (b[i] as int / 16) + b[i] as int % 16);
        }
        assert(a =~= b);
    }
}

proof fn lemma_hex_digit(a: int, b: int)
    requires
        0 <= a < 16,
        0 <= b < 16,
    ensures
        hex_digit(a) == hex_digit(b) ==> a == b,
{
}

} // verus!

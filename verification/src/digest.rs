//! SHA-256, as the `sha2` crate computes it.
use sha2::Digest;
use vstd::prelude::*;

verus! {

/// Bytes in a SHA-256 digest.
pub const SHA256_DIGEST_SIZE: usize = 32;

/// SHA-256 is defined for messages shorter than this many bytes.
pub const MAX_DIGEST_INPUT: u64 = 0x2000_0000_0000_0000;

/// The SHA-256 digest of `data`.
pub uninterp spec fn sha256(data: Seq<u8>) -> [u8; 32];

/// The bytes that `hasher` has taken in so far.
pub uninterp spec fn absorbed(hasher: sha2::Sha256) -> Seq<u8>;

/// The incremental hasher of the `sha2` crate.
#[verifier::external_type_specification]
#[verifier::external_body]
pub struct ExSha256(sha2::Sha256);

/// Calls `sha2::Sha256::digest`: the digest of `data` depends on `data` alone.
#[verifier::external_body]
pub(crate) fn digest_of(data: &[u8]) -> (digest: [u8; 32])
    requires
        data@.len() < MAX_DIGEST_INPUT,
    ensures
        digest == sha256(data@),
{
    sha2::Sha256::digest(data).into()
}

/// Calls `sha2::Sha256::new`: a new hasher has taken in nothing.
#[verifier::external_body]
fn hasher_new() -> (hasher: sha2::Sha256)
    ensures
        absorbed(hasher) == Seq::<u8>::empty(),
{
    sha2::Sha256::new()
}

/// Calls `sha2::Sha256::update`: the bytes of `data` are taken in after the earlier ones.
#[verifier::external_body]
fn hasher_update(hasher: &mut sha2::Sha256, data: &[u8])
    requires
        absorbed(*old(hasher)).len() + data@.len() < MAX_DIGEST_INPUT,
    ensures
        absorbed(*final(hasher)) == absorbed(*old(hasher)) + data@,
{
    hasher.update(data);
}

/// Calls `sha2::Sha256::finalize`: the digest is that of all bytes taken in.
#[verifier::external_body]
fn hasher_finalize(hasher: sha2::Sha256) -> (digest: [u8; 32])
    requires
        absorbed(hasher).len() < MAX_DIGEST_INPUT,
    ensures
        digest == sha256(absorbed(hasher)),
{
    hasher.finalize().into()
}

/// The digest of a file that is read piece by piece.
pub struct FileDigest {
    hasher: sha2::Sha256,
    taken: u64,
}

impl View for FileDigest {
    type V = Seq<u8>;

    /// The bytes read so far.
    closed spec fn view(&self) -> Seq<u8> {
        absorbed(self.hasher)
    }
}

impl FileDigest {
    /// The count of bytes agrees with the bytes.
    pub closed spec fn wf(&self) -> bool {
        &&& self.taken == absorbed(self.hasher).len()
        &&& self.taken < MAX_DIGEST_INPUT
    }

    /// Starts on an empty file.
    pub fn new() -> (digest: Self)
        ensures
            digest.wf(),
            digest@ == Seq::<u8>::empty(),
    {
        FileDigest { hasher: hasher_new(), taken: 0 }
    }

    /// How many bytes have been read.
    pub fn taken(&self) -> (n: u64)
        requires
            self.wf(),
        ensures
            n == self@.len(),
            n < MAX_DIGEST_INPUT,
    {
        self.taken
    }

    /// Takes in the next piece of the file.
    pub fn update(&mut self, piece: &[u8])
        requires
            old(self).wf(),
            old(self)@.len() + piece@.len() < MAX_DIGEST_INPUT,
        ensures
            final(self).wf(),
            final(self)@ == old(self)@ + piece@,
    {
        let n: u64 = piece.len() as u64;
        hasher_update(&mut self.hasher, piece);
        self.taken = self.taken + n;
    }

    /// The digest of everything read.
    pub fn finish(self) -> (digest: [u8; 32])
        requires
            self.wf(),
        ensures
            digest == sha256(self@),
    {
        hasher_finalize(self.hasher)
    }
}

/// Whether two digests are the same.
pub fn same_digest(a: &[u8; 32], b: &[u8; 32]) -> (same: bool)
    ensures
        same == (*a == *b),
{
    let mut i: usize = 0;
    while i < 32
        invariant
            i <= 32,
            forall|k: int| 0 <= k < i ==> a@[k] == b@[k],
        decreases 32 - i,
    {
        if a[i] != b[i] {
            return false;
        }
        i += 1;
    }
    assert(*a =~= *b);
    true
}

} // verus!

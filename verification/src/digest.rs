//! Fixed-size digests: the hash that addresses a stored payload and the
//! address of a snapshot.

use vstd::prelude::*;

verus! {

/// Number of bytes in a digest.
pub const DIGEST_LEN: usize = 32;

/// The BLAKE3 digest of a byte string, as the `blake3` crate computes it.
pub uninterp spec fn blake3_hash(input: Seq<u8>) -> Seq<u8>;

/// Calls `blake3::hash` and hands its 32 output bytes back.
/// Nothing is claimed of the digest beyond its being a function of the input.
#[verifier::external_body]
fn blake3_bytes(input: &[u8]) -> (out: [u8; 32])
    ensures
        out@ == blake3_hash(input@),
{
    *blake3::hash(input).as_bytes()
}

/// Whether two 32-byte arrays hold the same bytes.
pub fn bytes_equal(a: &[u8; 32], b: &[u8; 32]) -> (r: bool)
    ensures
        r == (a@ == b@),
{
    let mut i: usize = 0;
    while i < 32
        invariant
            i <= 32,
            forall|j: int| 0 <= j < i ==> a@[j] == b@[j],
        decreases 32 - i,
    {
        if a[i] != b[i] {
            return false;
        }
        i += 1;
    }
    assert(a@ =~= b@);
    true
}

/// Hash of the canonical bytes of a stored payload.
#[derive(Clone, Copy, Debug, PartialEq, Eq, Hash)]
pub struct ContentHash {
    bytes: [u8; 32],
}

impl View for ContentHash {
    type V = Seq<u8>;

    closed spec fn view(&self) -> Seq<u8> {
        self.bytes@
    }
}

impl ContentHash {
    /// Digest of `input`.
    pub fn new(input: &[u8]) -> (h: Self)
        ensures
            h@ == blake3_hash(input@),
    {
        ContentHash { bytes: blake3_bytes(input) }
    }

    /// The hash with exactly these bytes.
    pub fn from_bytes(bytes: [u8; 32]) -> (h: Self)
        ensures
            h@ == bytes@,
    {
        ContentHash { bytes }
    }

    pub fn as_bytes(&self) -> (b: &[u8; 32])
        ensures
            b@ == self@,
    {
        &self.bytes
    }

    /// Byte-wise equality.
    pub fn same(&self, other: &ContentHash) -> (r: bool)
        ensures
            r == (self@ == other@),
            r == (*self == *other),
    {
        proof {
            if self@ == other@ {
                Self::lemma_same(*self, *other);
            }
        }
        bytes_equal(&self.bytes, &other.bytes)
    }

    /// Hashes with the same bytes are the same hash.
    pub proof fn lemma_same(a: ContentHash, b: ContentHash)
        requires
            a@ == b@,
        ensures
            a == b,
    {
        assert(a.bytes =~= b.bytes);
    }
}

/// Address of a snapshot: the digest of its canonical bytes.
#[derive(Clone, Copy, Debug, PartialEq, Eq, Hash)]
pub struct Address {
    bytes: [u8; 32],
}

impl View for Address {
    type V = Seq<u8>;

    closed spec fn view(&self) -> Seq<u8> {
        self.bytes@
    }
}

impl Address {
    /// Digest of `input`.
    pub fn new(input: &[u8]) -> (a: Self)
        ensures
            a@ == blake3_hash(input@),
    {
        Address { bytes: blake3_bytes(input) }
    }

    /// The address with exactly these bytes.
    pub fn from_bytes(bytes: [u8; 32]) -> (a: Self)
        ensures
            a@ == bytes@,
    {
        Address { bytes }
    }

    pub fn as_bytes(&self) -> (b: &[u8; 32])
        ensures
            b@ == self@,
    {
        &self.bytes
    }

    /// Byte-wise equality.
    pub fn same(&self, other: &Address) -> (r: bool)
        ensures
            r == (self@ == other@),
            r == (*self == *other),
    {
        proof {
            if self@ == other@ {
                Self::lemma_same(*self, *other);
            }
        }
        bytes_equal(&self.bytes, &other.bytes)
    }

    /// Addresses with the same bytes are the same address.
    pub proof fn lemma_same(a: Address, b: Address)
        requires
            a@ == b@,
        ensures
            a == b,
    {
        assert(a.bytes =~= b.bytes);
    }
}

} // verus!

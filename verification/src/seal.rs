//! Hashes, and values that carry theirs.

use crate::bytes::{FixedBytes, B256};
use vstd::prelude::*;

verus! {

/// The Keccak-256 digest of a byte string.
pub uninterp spec fn keccak256_digest(data: Seq<u8>) -> Seq<u8>;

/// `alloy_primitives::keccak256`: the digest of `data`, which depends on its
/// bytes alone.
#[verifier::external_body]
pub(crate) fn keccak256(data: &[u8]) -> (res: B256)
    ensures
        res@ == keccak256_digest(data@),
{
    FixedBytes(alloy_primitives::keccak256(data).0)
}

/// A value together with its hash.
#[derive(Clone, Debug, PartialEq, Eq)]
pub struct Sealed<T> {
    inner: T,
    seal: B256,
}

impl<T> Sealed<T> {
    /// The value.
    pub closed spec fn sealed_inner(&self) -> T {
        self.inner
    }

    /// The hash.
    pub closed spec fn sealed_hash(&self) -> B256 {
        self.seal
    }

    /// Pairs a value with a hash, which is not compared with it.
    pub fn new_unchecked(inner: T, seal: B256) -> (res: Self)
        ensures
            res.sealed_inner() == inner,
            res.sealed_hash() == seal,
    {
        Sealed { inner, seal }
    }

    /// The value.
    pub fn inner(&self) -> (res: &T)
        ensures
            *res == self.sealed_inner(),
    {
        &self.inner
    }

    /// The hash.
    pub fn hash(&self) -> (res: B256)
        ensures
            res == self.sealed_hash(),
    {
        self.seal
    }
}

impl<T> core::ops::Deref for Sealed<T> {
    type Target = T;

    fn deref(&self) -> (res: &T)
        ensures
            *res == self.sealed_inner(),
    {
        &self.inner
    }
}

/// A value that can be hashed.
pub trait Sealable: Sized {
    /// The hash.
    spec fn seal_hash(&self) -> Seq<u8>;

    /// Computes the hash.
    fn hash_slow(&self) -> (res: B256)
        ensures
            res@ == self.seal_hash(),
    ;
}

} // verus!

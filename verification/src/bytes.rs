//! Byte strings that are cheap to share.

use crate::collections::Duplicate;
use std::sync::Arc;
use vstd::prelude::*;

verus! {

/// Another handle to the value behind `handle`.
///
/// Calls `Arc::clone`, which the standard library documents as making another
/// pointer to the same allocation: both handles lead to the same value.
#[verifier::external_body]
pub(crate) fn share<T>(handle: &Arc<T>) -> (r: Arc<T>)
    ensures
        r == *handle,
{
    Arc::clone(handle)
}

/// An immutable byte string behind a shared handle.
#[derive(Debug, PartialEq, Eq)]
pub struct Bytes {
    data: Arc<Vec<u8>>,
}

impl View for Bytes {
    type V = Seq<u8>;

    closed spec fn view(&self) -> Seq<u8> {
        self.data@
    }
}

impl Clone for Bytes {
    fn clone(&self) -> (r: Self)
        ensures
            r == *self,
    {
        Bytes { data: share(&self.data) }
    }
}

impl Duplicate for Bytes {
    open spec fn same(&self, other: &Self) -> bool {
        *self == *other
    }

    fn duplicate(&self) -> (r: Self) {
        self.clone()
    }
}

impl Bytes {
    /// The empty byte string.
    pub fn new() -> (r: Self)
        ensures
            r@ == Seq::<u8>::empty(),
    {
        Bytes { data: Arc::new(Vec::new()) }
    }

    /// The byte string that `data` holds.
    pub fn from_vec(data: Vec<u8>) -> (r: Self)
        ensures
            r@ == data@,
    {
        Bytes { data: Arc::new(data) }
    }

    /// A copy of `data`.
    pub fn from_slice(data: &[u8]) -> (r: Self)
        ensures
            r@ == data@,
    {
        let mut copy: Vec<u8> = Vec::new();
        copy.extend_from_slice(data);
        assert(copy@ =~= data@);
        Self::from_vec(copy)
    }

    /// The bytes.
    pub fn as_slice(&self) -> (r: &[u8])
        ensures
            r@ == self@,
    {
        self.data.as_slice()
    }

    /// The number of bytes.
    pub fn len(&self) -> (r: usize)
        ensures
            r == self@.len(),
    {
        self.data.len()
    }

    /// Whether there is no byte.
    pub fn is_empty(&self) -> (r: bool)
        ensures
            r == (self@.len() == 0),
    {
        self.data.len() == 0
    }
}

} // verus!

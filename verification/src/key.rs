//! The capabilities a graph key must offer.
//!
//! The graph is generic over its key type. All it ever does with a key is
//! compare two keys for equality and copy a key into its own storage, so the
//! [`GraphKey`] trait asks for exactly those two operations, each with a
//! contract tying the executable result to spec-level equality. Implementations
//! are provided for the common integer key types; a caller may implement the
//! trait for any further type whose equality test decides spec equality.

use vstd::prelude::*;

verus! {

/// A key usable by [`crate::graph::Graph`]: equality-testable and copyable.
pub trait GraphKey: Sized {
    /// True exactly when the two keys are equal.
    fn key_eq(&self, other: &Self) -> (r: bool)
        ensures
            r == (self == other),
    ;

    /// A copy of the key, equal to the original.
    fn key_clone(&self) -> (r: Self)
        ensures
            r == *self,
    ;
}

impl GraphKey for u32 {
    fn key_eq(&self, other: &u32) -> (r: bool)
        ensures
            r == (self == other),
    {
        *self == *other
    }

    fn key_clone(&self) -> (r: u32)
        ensures
            r == *self,
    {
        *self
    }
}

impl GraphKey for u64 {
    fn key_eq(&self, other: &u64) -> (r: bool)
        ensures
            r == (self == other),
    {
        *self == *other
    }

    fn key_clone(&self) -> (r: u64)
        ensures
            r == *self,
    {
        *self
    }
}

impl GraphKey for i32 {
    fn key_eq(&self, other: &i32) -> (r: bool)
        ensures
            r == (self == other),
    {
        *self == *other
    }

    fn key_clone(&self) -> (r: i32)
        ensures
            r == *self,
    {
        *self
    }
}

impl GraphKey for i64 {
    fn key_eq(&self, other: &i64) -> (r: bool)
        ensures
            r == (self == other),
    {
        *self == *other
    }

    fn key_clone(&self) -> (r: i64)
        ensures
            r == *self,
    {
        *self
    }
}

impl GraphKey for usize {
    fn key_eq(&self, other: &usize) -> (r: bool)
        ensures
            r == (self == other),
    {
        *self == *other
    }

    fn key_clone(&self) -> (r: usize)
        ensures
            r == *self,
    {
        *self
    }
}

} // verus!

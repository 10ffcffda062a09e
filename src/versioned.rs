use std::ops::{Deref, DerefMut};
use vstd::prelude::*;
use vstd::std_specs::cmp::PartialEqSpec;

verus! {

/// Relies on fastrand::u64 over the full range: any `u64` may come back.
#[verifier::external_body]
fn random_version() -> (r: u64) {
    fastrand::u64(..)
}

/// A wrapper around `T` that speeds up comparison at the cost of extra memory.
///
/// Every value carries a version tag. Two values with the same tag are equal
/// without looking at their contents; each mutable access gives the value a
/// new tag, different from the one it had.
#[derive(Debug)]
pub struct Versioned<T: PartialEq> {
    inner: T,
    version: u64,
}

impl<T: PartialEq> Versioned<T> {
    /// The wrapped value.
    pub closed spec fn value(&self) -> T {
        self.inner
    }

    /// The version tag.
    pub closed spec fn tag(&self) -> u64 {
        self.version
    }

    pub fn new(inner: T) -> (r: Self)
        ensures
            r.value() == inner,
    {
        Versioned { inner, version: random_version() }
    }

    fn bump_version(&mut self)
        ensures
            final(self).value() == old(self).value(),
            final(self).tag() != old(self).tag(),
    {
        let candidate = random_version();
        self.version = if candidate == self.version {
            // keep the new tag different even on a collision
            candidate.wrapping_add(1)
        } else {
            candidate
        };
    }
}

impl<T: PartialEq + Clone> Clone for Versioned<T> {
    fn clone(&self) -> (r: Self)
        ensures
            r.tag() == self.tag(),
            cloned(self.value(), r.value()),
    {
        Versioned { inner: self.inner.clone(), version: self.version }
    }
}

impl<T: PartialEq> Deref for Versioned<T> {
    type Target = T;

    fn deref(&self) -> (r: &T)
        ensures
            *r == self.value(),
    {
        &self.inner
    }
}

impl<T: PartialEq> DerefMut for Versioned<T> {
    fn deref_mut(&mut self) -> (r: &mut T)
        ensures
            *r == old(self).value(),
            final(self).tag() != old(self).tag(),
            final(self).value() == *final(r),
    {
        self.bump_version();
        &mut self.inner
    }
}

impl<T: PartialEq> PartialEq for Versioned<T> {
    fn eq(&self, other: &Self) -> (r: bool) {
        if self.version == other.version {
            return true;
        }
        self.inner == other.inner
    }
}

impl<T: PartialEq> vstd::std_specs::cmp::PartialEqSpecImpl for Versioned<T> {
    open spec fn obeys_eq_spec() -> bool {
        T::obeys_eq_spec()
    }

    open spec fn eq_spec(&self, other: &Self) -> bool {
        self.tag() == other.tag() || self.value().eq_spec(&other.value())
    }
}

impl<T: PartialEq + Eq> Eq for Versioned<T> {
}

} // verus!

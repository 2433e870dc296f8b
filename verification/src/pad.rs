//! Values with padding, to match the layout of shared buffers.
use core::ops::{Deref, DerefMut};
use vstd::prelude::*;

verus! {

/// A value followed by its padding.
#[derive(Clone, Copy, Debug, PartialEq, Eq, PartialOrd, Default)]
pub struct Pad<T, P>(pub T, pub P);

impl<T, P> Pad<T, P> {
    /// Pads a value with the default padding.
    pub fn new(x: T) -> (r: Self) where P: Default
        ensures
            r.0 == x,
            call_ensures(P::default, (), r.1),
    {
        Pad(x, P::default())
    }
}

impl<T, P> Deref for Pad<T, P> {
    type Target = T;

    fn deref(&self) -> (r: &T)
        ensures
            *r == self.0,
    {
        &self.0
    }
}

impl<T, P> DerefMut for Pad<T, P> {
    fn deref_mut(&mut self) -> (r: &mut T)
        ensures
            *r == old(self).0,
            *final(self) == Pad(*final(r), old(self).1),
    {
        &mut self.0
    }
}

impl<T, P: Default> From<T> for Pad<T, P> {
    fn from(x: T) -> (r: Pad<T, P>)
        ensures
            r.0 == x,
            call_ensures(P::default, (), r.1),
    {
        Pad::new(x)
    }
}

impl<T, P: Default> vstd::std_specs::convert::FromSpecImpl<T> for Pad<T, P> {
    open spec fn obeys_from_spec() -> bool {
        false
    }

    open spec fn from_spec(x: T) -> Pad<T, P> {
        Pad(x, arbitrary())
    }
}

} // verus!

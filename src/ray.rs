//! Rays: an origin point and a direction, over any vector type.
use vstd::prelude::*;

verus! {

/// An origin point with a vector for the direction.
pub struct Ray<T> {
    origin: T,
    direction: T,
}

impl<T> View for Ray<T> {
    /// The origin and the direction.
    type V = (T, T);

    closed spec fn view(&self) -> (T, T) {
        (self.origin, self.direction)
    }
}

impl<T> Ray<T> {
    pub fn new(origin: T, direction: T) -> (r: Ray<T>)
        ensures
            r@ == (origin, direction),
    {
        Ray { origin, direction }
    }

    pub fn origin(&self) -> (r: &T)
        ensures
            *r == self@.0,
    {
        &self.origin
    }

    pub fn direction(&self) -> (r: &T)
        ensures
            *r == self@.1,
    {
        &self.direction
    }
}

} // verus!

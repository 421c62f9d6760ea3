//! A ray: an origin and a direction, over whatever point type the caller
//! computes with.
use vstd::prelude::*;

verus! {

/// A half-line from `origin` along `direction`.
#[derive(Debug, Clone, Copy)]
pub struct Ray<V> {
    pub origin: V,
    pub direction: V,
}

/// Builds the ray that starts at `o` and heads along `dir`.
pub fn new<V>(o: V, dir: V) -> (r: Ray<V>)
    ensures
        r.origin == o,
        r.direction == dir,
{
    Ray { origin: o, direction: dir }
}

} // verus!

//! Grid positions.

use vstd::prelude::*;

use crate::AreaSize;

verus! {

/// An immutable grid cell position, compared and hashed by value.
#[derive(Debug, Clone, Copy, Hash, PartialEq, Eq, Structural)]
pub struct Point {
    pub x: AreaSize,
    pub y: AreaSize,
}

impl Point {
    pub open spec fn spec_x(&self) -> AreaSize {
        self.x
    }

    pub open spec fn spec_y(&self) -> AreaSize {
        self.y
    }

    pub fn new(x: AreaSize, y: AreaSize) -> (r: Self)
        ensures
            r == (Point { x, y }),
    {
        Self { x, y }
    }

    #[verifier::when_used_as_spec(spec_x)]
    pub fn x(&self) -> (r: AreaSize)
        ensures
            r == self.x,
    {
        self.x
    }

    #[verifier::when_used_as_spec(spec_y)]
    pub fn y(&self) -> (r: AreaSize)
        ensures
            r == self.y,
    {
        self.y
    }
}

/// A fresh vector with exactly the points of `v`, in order.
pub fn clone_points(v: &Vec<Point>) -> (r: Vec<Point>)
    ensures
        r@ == v@,
{
    let mut r: Vec<Point> = Vec::new();
    let mut i: usize = 0;
    while i < v.len()
        invariant
            0 <= i <= v.len(),
            r@ == v@.subrange(0, i as int),
        decreases v.len() - i,
    {
        r.push(v[i]);
        proof {
            assert(r@ =~= v@.subrange(0, i + 1));
        }
        i = i + 1;
    }
    proof {
        assert(r@ =~= v@);
    }
    r
}

} // verus!

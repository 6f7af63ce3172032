//! The four movement directions and their reversal.

use vstd::prelude::*;

verus! {

/// One of the four axis-aligned movement directions; no diagonal motion.
#[derive(Debug, Clone, Copy, Hash, PartialEq, Eq, Structural)]
pub enum Direction {
    Right,
    Left,
    Down,
    Up,
}

impl Direction {
    /// The opposite direction: Right and Left swap, Down and Up swap.
    pub open spec fn spec_reverse(&self) -> Direction {
        match self {
            Direction::Right => Direction::Left,
            Direction::Left => Direction::Right,
            Direction::Down => Direction::Up,
            Direction::Up => Direction::Down,
        }
    }

    #[verifier::when_used_as_spec(spec_reverse)]
    pub fn reverse(&self) -> (r: Self)
        ensures
            r == self.spec_reverse(),
    {
        match self {
            Self::Right => Self::Left,
            Self::Left => Self::Right,
            Self::Down => Self::Up,
            Self::Up => Self::Down,
        }
    }
}

/// Reversing a direction twice gives the direction back.
pub proof fn lemma_reverse_involutive(d: Direction)
    ensures
        d.spec_reverse().spec_reverse() == d,
{
}

} // verus!

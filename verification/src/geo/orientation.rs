//! Compass orientations and the turning algebra.

use vstd::prelude::*;
use crate::geo::location::Point;

verus! {

/// One of the four compass directions a robot can face.
#[derive(Clone, Copy, PartialEq, Eq, Structural, Hash, Debug)]
pub enum Orientation {
    North,
    East,
    South,
    West,
}

/// The two ways a robot can rotate in place.
#[derive(Clone, Copy, PartialEq, Eq, Structural, Debug)]
pub enum TurnDirection {
    Left,
    Right,
}

/// The orientation reached by rotating `o` one quarter turn in direction `d`:
/// `Left` is counter-clockwise (N, W, S, E), `Right` clockwise (N, E, S, W).
pub open spec fn spec_turn(o: Orientation, d: TurnDirection) -> Orientation {
    match d {
        TurnDirection::Left => match o {
            Orientation::North => Orientation::West,
            Orientation::West => Orientation::South,
            Orientation::South => Orientation::East,
            Orientation::East => Orientation::North,
        },
        TurnDirection::Right => match o {
            Orientation::North => Orientation::East,
            Orientation::East => Orientation::South,
            Orientation::South => Orientation::West,
            Orientation::West => Orientation::North,
        },
    }
}

impl Orientation {
    /// The `x` component of this orientation's unit displacement vector.
    pub open spec fn unit_x(self) -> int {
        match self {
            Orientation::North => 0,
            Orientation::East => 1,
            Orientation::South => 0,
            Orientation::West => -1,
        }
    }

    /// The `y` component of this orientation's unit displacement vector.
    pub open spec fn unit_y(self) -> int {
        match self {
            Orientation::North => 1,
            Orientation::East => 0,
            Orientation::South => -1,
            Orientation::West => 0,
        }
    }

    /// The unit displacement vector of this orientation as a point:
    /// North is `(0, 1)`, East `(1, 0)`, South `(0, -1)`, West `(-1, 0)`.
    pub fn as_point(&self) -> (r: Point)
        ensures
            r.x == self.unit_x(),
            r.y == self.unit_y(),
    {
        match self {
            Orientation::North => Point { x: 0, y: 1 },
            Orientation::East => Point { x: 1, y: 0 },
            Orientation::South => Point { x: 0, y: -1 },
            Orientation::West => Point { x: -1, y: 0 },
        }
    }

    /// Rotate one quarter turn in direction `rhs`.
    pub fn turn(&self, rhs: TurnDirection) -> (r: Orientation)
        ensures
            r == spec_turn(*self, rhs),
    {
        match (self, rhs) {
            (orientation, TurnDirection::Left) => match orientation {
                Orientation::North => Orientation::West,
                Orientation::West => Orientation::South,
                Orientation::South => Orientation::East,
                Orientation::East => Orientation::North,
            },
            (orientation, TurnDirection::Right) => match orientation {
                Orientation::North => Orientation::East,
                Orientation::East => Orientation::South,
                Orientation::South => Orientation::West,
                Orientation::West => Orientation::North,
            },
        }
    }
}

/// Turning law: a left turn undoes a right turn and vice versa, for every
/// orientation.
pub proof fn lemma_turn_left_right_inverse(o: Orientation)
    ensures
        spec_turn(spec_turn(o, TurnDirection::Left), TurnDirection::Right) == o,
        spec_turn(spec_turn(o, TurnDirection::Right), TurnDirection::Left) == o,
{
}

/// Turning law: four quarter turns in the same direction return to the
/// starting orientation, so turning permutes the four orientations with
/// period four.
pub proof fn lemma_turn_four_times(o: Orientation, d: TurnDirection)
    ensures
        spec_turn(spec_turn(spec_turn(spec_turn(o, d), d), d), d) == o,
{
}

} // verus!

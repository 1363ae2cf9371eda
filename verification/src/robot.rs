//! The robot: a position paired with a facing, and its single transition
//! function over commands.

use vstd::prelude::*;
use crate::geo::location::Point;
use crate::geo::orientation::{spec_turn, Orientation, TurnDirection};

verus! {

/// A robot's full state: where it stands and which way it faces. Two robots
/// with equal fields are interchangeable.
#[derive(Clone, Copy, PartialEq, Eq, Structural, Debug)]
pub struct Robot {
    pub position: Point,
    pub facing: Orientation,
}

/// One instruction to a robot: rotate in place or move one cell forward.
#[derive(Clone, Copy, PartialEq, Eq, Structural, Debug)]
pub enum Command {
    Left,
    Right,
    Forward,
}

/// The facing a robot attempts after `command`: rotated for `Left` and
/// `Right`, unchanged for `Forward`.
pub open spec fn next_facing(facing: Orientation, command: Command) -> Orientation {
    match command {
        Command::Left => spec_turn(facing, TurnDirection::Left),
        Command::Right => spec_turn(facing, TurnDirection::Right),
        Command::Forward => facing,
    }
}

/// The `x` coordinate a robot attempts after `command`, as an unbounded
/// integer: only `Forward` moves, by the facing's unit vector.
pub open spec fn next_x(robot: Robot, command: Command) -> int {
    match command {
        Command::Forward => robot.position.x + robot.facing.unit_x(),
        _ => robot.position.x as int,
    }
}

/// The `y` coordinate a robot attempts after `command`, as an unbounded
/// integer.
pub open spec fn next_y(robot: Robot, command: Command) -> int {
    match command {
        Command::Forward => robot.position.y + robot.facing.unit_y(),
        _ => robot.position.y as int,
    }
}

impl Robot {
    /// Apply one command: `Left` and `Right` rotate the facing in place,
    /// `Forward` adds the facing's unit vector to the position. This covers
    /// all twelve command-orientation pairs.
    pub fn advance(self, command: Command) -> (r: Robot)
        requires
            i32::MIN <= next_x(self, command) <= i32::MAX,
            i32::MIN <= next_y(self, command) <= i32::MAX,
        ensures
            r.facing == next_facing(self.facing, command),
            r.position.x == next_x(self, command),
            r.position.y == next_y(self, command),
    {
        match command {
            Command::Left => Robot {
                position: self.position,
                facing: self.facing.turn(TurnDirection::Left),
            },
            Command::Right => Robot {
                position: self.position,
                facing: self.facing.turn(TurnDirection::Right),
            },
            Command::Forward => Robot {
                position: self.position.step(self.facing),
                facing: self.facing,
            },
        }
    }
}

} // verus!

//! Pseudo-random production of reproducible robot fixtures: given a seed,
//! a deterministic grid bound and a stream of robot/command pairs.

use vstd::prelude::*;
use crate::geo::location::Point;
use crate::geo::orientation::Orientation;
use crate::robot::{Command, Robot};

verus! {

#[verifier::external_type_specification]
#[verifier::external_body]
pub struct ExSmallRng(rand::rngs::SmallRng);

/// Relies on rand's `SeedableRng::seed_from_u64` for `SmallRng`: builds a
/// generator from a seed. Nothing is assumed of the generator's state.
#[verifier::external_body]
fn rng_from_seed(seed: u64) -> rand::rngs::SmallRng {
    <rand::rngs::SmallRng as rand::SeedableRng>::seed_from_u64(seed)
}

/// Relies on rand's `Rng::gen_range`: returns a value in `[low, high)`, and
/// panics when `low >= high`, so that case is excluded here.
#[verifier::external_body]
fn rng_range(rng: &mut rand::rngs::SmallRng, low: i32, high: i32) -> (r: i32)
    requires
        low < high,
    ensures
        low <= r < high,
{
    rand::Rng::gen_range(rng, low, high)
}

/// The orientation drawn for an index in `[0, 4)`.
pub fn orientation_from_index(index: i32) -> (r: Orientation)
    ensures
        r == spec_orientation_from_index(index),
{
    match index {
        0 => Orientation::North,
        1 => Orientation::West,
        2 => Orientation::South,
        _ => Orientation::East,
    }
}

/// Which orientation each index stands for.
pub open spec fn spec_orientation_from_index(index: i32) -> Orientation {
    if index == 0 {
        Orientation::North
    } else if index == 1 {
        Orientation::West
    } else if index == 2 {
        Orientation::South
    } else {
        Orientation::East
    }
}

/// The command drawn for an index in `[0, 3)`.
pub fn command_from_index(index: i32) -> (r: Command)
    ensures
        r == spec_command_from_index(index),
{
    match index {
        0 => Command::Left,
        1 => Command::Right,
        _ => Command::Forward,
    }
}

/// Which command each index stands for.
pub open spec fn spec_command_from_index(index: i32) -> Command {
    if index == 0 {
        Command::Left
    } else if index == 1 {
        Command::Right
    } else {
        Command::Forward
    }
}

/// A seed-deterministic producer of robot fixtures: a grid bound drawn once
/// from the seed, and a pseudo-random number generator for the robots.
pub struct Generator {
    pub upper_right: Point,
    pub prng: rand::rngs::SmallRng,
}

impl Generator {
    /// A generator for the given seed, with a grid bound drawn in
    /// `[1, 50]` on both axes. The same seed always gives the same bound
    /// and the same stream of robots.
    pub fn new(seed: u64) -> (g: Generator)
        ensures
            1 <= g.upper_right.x <= 50,
            1 <= g.upper_right.y <= 50,
    {
        let mut prng = rng_from_seed(seed);
        let x = rng_range(&mut prng, 1, 51);
        let y = rng_range(&mut prng, 1, 51);
        Generator { upper_right: Point { x, y }, prng }
    }

    /// Draw the next robot and its commands: a position strictly inside the
    /// grid bound on both axes, any facing, and one to ninety-nine commands.
    pub fn next_robot(&mut self) -> (r: (Robot, Vec<Command>))
        requires
            old(self).upper_right.x >= 1,
            old(self).upper_right.y >= 1,
        ensures
            final(self).upper_right == old(self).upper_right,
            0 <= r.0.position.x < old(self).upper_right.x,
            0 <= r.0.position.y < old(self).upper_right.y,
            1 <= r.1@.len() <= 99,
    {
        let x = rng_range(&mut self.prng, 0, self.upper_right.x);
        let y = rng_range(&mut self.prng, 0, self.upper_right.y);
        let facing = orientation_from_index(rng_range(&mut self.prng, 0, 4));
        let robot = Robot { position: Point { x, y }, facing };
        let count = rng_range(&mut self.prng, 1, 100);
        let mut commands: Vec<Command> = Vec::new();
        let mut i: i32 = 0;
        while i < count
            invariant
                0 <= i <= count < 100,
                commands@.len() == i,
                self.upper_right == old(self).upper_right,
            decreases count - i,
        {
            let command = command_from_index(rng_range(&mut self.prng, 0, 3));
            commands.push(command);
            i = i + 1;
        }
        (robot, commands)
    }
}

} // verus!

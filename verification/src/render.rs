//! Rendering of points, robots, outcomes and whole plans back to the
//! textual formats the parser reads.

use vstd::prelude::*;
use crate::geo::location::Point;
use crate::geo::orientation::Orientation;
use crate::mission::Outcome;
use crate::robot::{Command, Robot};

verus! {

/// The decimal digit bytes of `n`, most significant first, with no sign and
/// no leading zeros (a single `0` for zero).
pub open spec fn spec_fmt_nat(n: nat) -> Seq<u8>
    decreases n,
{
    if n < 10 {
        seq![(48 + n) as u8]
    } else {
        spec_fmt_nat(n / 10).push((48 + n % 10) as u8)
    }
}

/// A point as text: the two coordinates in decimal, separated by one space.
pub open spec fn spec_fmt_point(p: Point) -> Seq<u8> {
    spec_fmt_nat(p.x as nat) + seq![32u8] + spec_fmt_nat(p.y as nat)
}

/// The letter of an orientation.
pub open spec fn orientation_byte(o: Orientation) -> u8 {
    match o {
        Orientation::North => 78,
        Orientation::East => 69,
        Orientation::South => 83,
        Orientation::West => 87,
    }
}

/// The letter of a command.
pub open spec fn command_byte(c: Command) -> u8 {
    match c {
        Command::Left => 76,
        Command::Right => 82,
        Command::Forward => 70,
    }
}

/// A command sequence as one contiguous run of letters.
pub open spec fn spec_fmt_commands(commands: Seq<Command>) -> Seq<u8>
    decreases commands.len(),
{
    if commands.len() == 0 {
        Seq::<u8>::empty()
    } else {
        spec_fmt_commands(commands.drop_last()).push(command_byte(commands.last()))
    }
}

/// A robot as text: its point, a space, and its orientation letter.
pub open spec fn spec_fmt_robot(robot: Robot) -> Seq<u8> {
    spec_fmt_point(robot.position) + seq![32u8] + seq![orientation_byte(robot.facing)]
}

/// A robot record as text: the robot line and the command line, each ended
/// by a line feed.
pub open spec fn spec_fmt_robot_record(robot: Robot, commands: Seq<Command>) -> Seq<u8> {
    spec_fmt_robot(robot) + seq![10u8] + spec_fmt_commands(commands) + seq![10u8]
}

/// An outcome as text: the robot, followed by ` LOST` if it was lost.
pub open spec fn spec_fmt_outcome(outcome: Outcome) -> Seq<u8> {
    match outcome {
        Outcome::Success(robot) => spec_fmt_robot(robot),
        Outcome::Lost(robot) => spec_fmt_robot(robot) + seq![32u8, 76u8, 79u8, 83u8, 84u8],
    }
}

/// The robot records of a plan, concatenated.
pub open spec fn spec_fmt_records(records: Seq<(Robot, Seq<Command>)>) -> Seq<u8>
    decreases records.len(),
{
    if records.len() == 0 {
        Seq::<u8>::empty()
    } else {
        spec_fmt_robot_record(records[0].0, records[0].1) + spec_fmt_records(records.drop_first())
    }
}

/// A whole plan as text: the grid-size line, then each robot record.
pub open spec fn spec_fmt_plan(upper_right: Point, records: Seq<(Robot, Seq<Command>)>) -> Seq<
    u8,
> {
    spec_fmt_point(upper_right) + seq![10u8] + spec_fmt_records(records)
}

/// The mathematical records a vector of robot/command pairs stands for.
pub open spec fn records_view(items: Seq<(Robot, Vec<Command>)>) -> Seq<(Robot, Seq<Command>)> {
    items.map_values(|item: (Robot, Vec<Command>)| (item.0, item.1@))
}

/// Append the decimal digits of `x` to `out`.
pub fn push_decimal(out: &mut Vec<u8>, x: i32)
    requires
        x >= 0,
    ensures
        final(out)@ == old(out)@ + spec_fmt_nat(x as nat),
    decreases x,
{
    if x < 10 {
        out.push(48 + (x as u8));
        assert(out@ =~= old(out)@ + spec_fmt_nat(x as nat));
    } else {
        push_decimal(out, x / 10);
        out.push(48 + ((x % 10) as u8));
        assert(out@ =~= old(out)@ + spec_fmt_nat(x as nat));
    }
}

/// Append a point's text to `out`.
pub fn push_point(out: &mut Vec<u8>, p: Point)
    requires
        p.x >= 0,
        p.y >= 0,
    ensures
        final(out)@ == old(out)@ + spec_fmt_point(p),
{
    push_decimal(out, p.x);
    out.push(32);
    push_decimal(out, p.y);
    assert(out@ =~= old(out)@ + spec_fmt_point(p));
}

/// Append a robot's text to `out`.
pub fn push_robot(out: &mut Vec<u8>, robot: &Robot)
    requires
        robot.position.x >= 0,
        robot.position.y >= 0,
    ensures
        final(out)@ == old(out)@ + spec_fmt_robot(*robot),
{
    push_point(out, robot.position);
    out.push(32);
    let letter: u8 = match robot.facing {
        Orientation::North => 78,
        Orientation::East => 69,
        Orientation::South => 83,
        Orientation::West => 87,
    };
    out.push(letter);
    assert(out@ =~= old(out)@ + spec_fmt_robot(*robot));
}

/// Append a command run's text to `out`.
pub fn push_commands(out: &mut Vec<u8>, commands: &Vec<Command>)
    ensures
        final(out)@ == old(out)@ + spec_fmt_commands(commands@),
{
    let mut i: usize = 0;
    assert(commands@.subrange(0, 0) =~= Seq::<Command>::empty());
    assert(out@ =~= old(out)@ + spec_fmt_commands(commands@.subrange(0, 0)));
    while i < commands.len()
        invariant
            0 <= i <= commands@.len(),
            out@ == old(out)@ + spec_fmt_commands(commands@.subrange(0, i as int)),
        decreases commands@.len() - i,
    {
        let letter: u8 = match commands[i] {
            Command::Left => 76,
            Command::Right => 82,
            Command::Forward => 70,
        };
        out.push(letter);
        assert(commands@.subrange(0, i as int + 1).drop_last() =~= commands@.subrange(0, i as int)
            && commands@.subrange(0, i as int + 1).last() == commands@[i as int]);
        assert(out@ =~= old(out)@ + spec_fmt_commands(commands@.subrange(0, i as int + 1)));
        i = i + 1;
    }
    assert(commands@.subrange(0, i as int) =~= commands@);
}

/// A robot's text, as the outcome log and the plan format write it.
pub fn format_robot(robot: &Robot) -> (r: Vec<u8>)
    requires
        robot.position.x >= 0,
        robot.position.y >= 0,
    ensures
        r@ == spec_fmt_robot(*robot),
{
    let mut out: Vec<u8> = Vec::new();
    push_robot(&mut out, robot);
    assert(out@ =~= spec_fmt_robot(*robot));
    out
}

/// An outcome's text: the robot, with ` LOST` appended when it was lost.
pub fn format_outcome(outcome: &Outcome) -> (r: Vec<u8>)
    requires
        (outcome matches Outcome::Success(robot) ==> robot.position.x >= 0 && robot.position.y
            >= 0),
        (outcome matches Outcome::Lost(robot) ==> robot.position.x >= 0 && robot.position.y >= 0),
    ensures
        r@ == spec_fmt_outcome(*outcome),
{
    let mut out: Vec<u8> = Vec::new();
    match outcome {
        Outcome::Success(robot) => {
            push_robot(&mut out, robot);
        },
        Outcome::Lost(robot) => {
            push_robot(&mut out, robot);
            out.push(32);
            out.push(76);
            out.push(79);
            out.push(83);
            out.push(84);
        },
    }
    assert(out@ =~= spec_fmt_outcome(*outcome));
    out
}

/// Whether every robot of a batch stands on nonnegative coordinates, as the
/// plan text format requires.
pub open spec fn records_in_format(items: Seq<(Robot, Vec<Command>)>) -> bool {
    forall|k: int|
        0 <= k < items.len() ==> (#[trigger] items[k]).0.position.x >= 0
            && items[k].0.position.y >= 0
}

/// A whole plan's text: the grid-size line, then one record per robot — its
/// position and facing on one line, its commands on the next.
pub fn format_plan(upper_right: Point, items: &Vec<(Robot, Vec<Command>)>) -> (r: Vec<u8>)
    requires
        upper_right.x >= 0,
        upper_right.y >= 0,
        records_in_format(items@),
    ensures
        r@ == spec_fmt_plan(upper_right, records_view(items@)),
{
    let ghost rv = records_view(items@);
    let mut out: Vec<u8> = Vec::new();
    push_point(&mut out, upper_right);
    out.push(10);
    let mut i: usize = 0;
    assert(out@ + spec_fmt_records(rv.skip(0)) =~= spec_fmt_plan(upper_right, rv)) by {
        assert(rv.skip(0) =~= rv);
    }
    while i < items.len()
        invariant
            0 <= i <= items@.len(),
            rv == records_view(items@),
            rv.len() == items@.len(),
            records_in_format(items@),
            out@ + spec_fmt_records(rv.skip(i as int)) == spec_fmt_plan(upper_right, rv),
        decreases items@.len() - i,
    {
        let ghost pre = out@;
        let item = &items[i];
        assert(items@[i as int].0.position.x >= 0 && items@[i as int].0.position.y >= 0);
        push_robot(&mut out, &item.0);
        out.push(10);
        push_commands(&mut out, &item.1);
        out.push(10);
        proof {
            assert(rv.skip(i as int)[0] == rv[i as int]);
            assert(rv[i as int] == (items@[i as int].0, items@[i as int].1@));
            assert(rv.skip(i as int).drop_first() =~= rv.skip(i as int + 1));
            assert(out@ =~= pre + spec_fmt_robot_record(rv[i as int].0, rv[i as int].1));
            assert(out@ + spec_fmt_records(rv.skip(i as int + 1)) =~= pre + spec_fmt_records(
                rv.skip(i as int),
            ));
        }
        i = i + 1;
    }
    assert(rv.skip(i as int) =~= Seq::<(Robot, Seq<Command>)>::empty());
    assert(out@ =~= out@ + spec_fmt_records(rv.skip(i as int)));
    out
}

} // verus!

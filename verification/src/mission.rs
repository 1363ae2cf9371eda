//! The dispatch engine: a mission owns the grid bounds and the scent table,
//! executes a robot's command sequence, and decides success or loss.

use vstd::prelude::*;
use crate::geo::location::Point;
use crate::geo::orientation::{Orientation, TurnDirection};
use crate::robot::{next_facing, next_x, next_y, Command, Robot};

verus! {

/// The terminal result of dispatching one robot: its final resting state, or
/// its last valid on-grid state before it was lost.
#[derive(Clone, Copy, PartialEq, Eq, Structural, Debug)]
pub enum Outcome {
    Success(Robot),
    Lost(Robot),
}

/// A marker left where a robot fell off the grid: the on-grid departure
/// point together with the facing of the fatal move. A later robot about to
/// leave the grid from the same point with the same facing is protected.
#[derive(Clone, Copy, PartialEq, Eq, Structural, Debug)]
pub struct Scent {
    pub position: Point,
    pub facing: Orientation,
}

/// Whether the scent table holds a marker for departure point `position`
/// with attempted facing `facing`.
pub open spec fn has_scent(scents: Seq<Scent>, position: Point, facing: Orientation) -> bool {
    exists|i: int|
        0 <= i < scents.len() && scents[i].position == position && scents[i].facing == facing
}

/// Whether `x`, `y` lies within the closed rectangle from the origin to
/// `upper_right`, in both axes.
pub open spec fn on_grid(upper_right: Point, x: int, y: int) -> bool {
    0 <= x <= upper_right.x && 0 <= y <= upper_right.y
}

/// What dispatching `robot` over `commands` against grid bound `upper_right`
/// and scent table `scents` yields: the outcome, and the scent table
/// afterwards. Commands are folded one at a time over the last known good
/// state; an off-grid move is dropped when its departure point and attempted
/// facing carry a scent, and otherwise loses the robot and records a scent.
pub open spec fn dispatch_spec(
    upper_right: Point,
    scents: Seq<Scent>,
    robot: Robot,
    commands: Seq<Command>,
) -> (Outcome, Seq<Scent>)
    decreases commands.len(),
{
    if commands.len() == 0 {
        (Outcome::Success(robot), scents)
    } else {
        let command = commands[0];
        let nf = next_facing(robot.facing, command);
        let nx = next_x(robot, command);
        let ny = next_y(robot, command);
        if on_grid(upper_right, nx, ny) {
            let moved = Robot { position: Point { x: nx as i32, y: ny as i32 }, facing: nf };
            dispatch_spec(upper_right, scents, moved, commands.drop_first())
        } else if has_scent(scents, robot.position, nf) {
            dispatch_spec(upper_right, scents, robot, commands.drop_first())
        } else {
            (Outcome::Lost(robot), scents.push(Scent { position: robot.position, facing: nf }))
        }
    }
}

/// One simulation run over a fixed grid. Owns the scent table, which
/// accumulates for the whole run and is never evicted, so that a scent
/// protects every later robot dispatched to the same mission.
pub struct Mission {
    pub upper_right: Point,
    pub scents: Vec<Scent>,
}

impl Mission {
    /// A fresh mission over the grid from the origin to `upper_right`, with
    /// no scents yet.
    pub fn new(upper_right: Point) -> (m: Mission)
        ensures
            m.upper_right == upper_right,
            m.scents@ == Seq::<Scent>::empty(),
    {
        Mission { upper_right, scents: Vec::new() }
    }

    /// Whether the scent table holds a marker for `position` and `facing`.
    fn scented(&self, position: Point, facing: Orientation) -> (r: bool)
        ensures
            r == has_scent(self.scents@, position, facing),
    {
        let mut i: usize = 0;
        while i < self.scents.len()
            invariant
                0 <= i <= self.scents@.len(),
                forall|k: int|
                    0 <= k < i ==> !(self.scents@[k].position == position
                        && self.scents@[k].facing == facing),
            decreases self.scents@.len() - i,
        {
            let s = self.scents[i];
            if s.position.x == position.x && s.position.y == position.y && s.facing == facing {
                assert(self.scents@[i as int].position == position);
                return true;
            }
            i = i + 1;
        }
        false
    }

    /// Execute `commands` on `robot`, reading and growing the scent table,
    /// exactly as `dispatch_spec` describes.
    pub fn dispatch(&mut self, robot: Robot, commands: &[Command]) -> (outcome: Outcome)
        ensures
            final(self).upper_right == old(self).upper_right,
            (outcome, final(self).scents@) == dispatch_spec(
                old(self).upper_right,
                old(self).scents@,
                robot,
                commands@,
            ),
    {
        let mut current = robot;
        let mut i: usize = 0;
        assert(commands@.skip(0) =~= commands@);
        while i < commands.len()
            invariant
                0 <= i <= commands@.len(),
                self.upper_right == old(self).upper_right,
                dispatch_spec(old(self).upper_right, old(self).scents@, robot, commands@)
                    == dispatch_spec(
                    self.upper_right,
                    self.scents@,
                    current,
                    commands@.skip(i as int),
                ),
                self.scents@ == old(self).scents@,
            decreases commands@.len() - i,
        {
            let command = commands[i];
            let ghost rest = commands@.skip(i as int);
            assert(rest[0] == command && rest.drop_first() =~= commands@.skip(i as int + 1));
            let nf = match command {
                Command::Left => current.facing.turn(TurnDirection::Left),
                Command::Right => current.facing.turn(TurnDirection::Right),
                Command::Forward => current.facing,
            };
            let nx: i64 = match command {
                Command::Forward => current.position.x as i64 + current.facing.as_point().x as i64,
                _ => current.position.x as i64,
            };
            let ny: i64 = match command {
                Command::Forward => current.position.y as i64 + current.facing.as_point().y as i64,
                _ => current.position.y as i64,
            };
            assert(nx == next_x(current, command) && ny == next_y(current, command));
            if 0 <= nx && nx <= self.upper_right.x as i64 && 0 <= ny
                && ny <= self.upper_right.y as i64 {
                current = Robot { position: Point { x: nx as i32, y: ny as i32 }, facing: nf };
            } else if self.scented(current.position, nf) {
                // protected by an earlier robot's scent: drop the move
            } else {
                assert(!on_grid(self.upper_right, next_x(current, command), next_y(current, command)));
                assert(dispatch_spec(self.upper_right, self.scents@, current, rest) == (
                    Outcome::Lost(current),
                    self.scents@.push(Scent { position: current.position, facing: nf }),
                ));
                self.scents.push(Scent { position: current.position, facing: nf });
                return Outcome::Lost(current);
            }
            i = i + 1;
        }
        assert(commands@.skip(i as int) =~= Seq::<Command>::empty());
        Outcome::Success(current)
    }

    /// Dispatch a whole batch of items, in order, against one fresh mission
    /// over the grid bound `upper_right`, and collect their outputs. Scents
    /// accumulate across the batch, so the order of the batch matters.
    pub fn run<S: SourceItem>(upper_right: Point, source: Vec<S>) -> (outcomes: Vec<S::Output>)
        ensures
            outcomes@ == run_spec(upper_right, Seq::<Scent>::empty(), source@).0,
    {
        let ghost items0 = source@;
        let mut mission = Mission::new(upper_right);
        let mut source = source;
        let mut outcomes: Vec<S::Output> = Vec::new();
        assert(outcomes@ + run_spec(upper_right, mission.scents@, source@).0 =~= run_spec(
            upper_right,
            Seq::<Scent>::empty(),
            items0,
        ).0);
        while source.len() > 0
            invariant
                mission.upper_right == upper_right,
                run_spec(upper_right, Seq::<Scent>::empty(), items0).0 == outcomes@ + run_spec(
                    upper_right,
                    mission.scents@,
                    source@,
                ).0,
            decreases source@.len(),
        {
            let ghost pre_items = source@;
            let ghost pre_scents = mission.scents@;
            let item = source.remove(0);
            let output = item.dispatch(&mut mission);
            outcomes.push(output);
            proof {
                assert(pre_items.remove(0) =~= pre_items.drop_first());
                let first = pre_items[0].spec_dispatch(upper_right, pre_scents);
                assert(run_spec(upper_right, pre_scents, pre_items).0 == seq![first.0] + run_spec(
                    upper_right,
                    first.1,
                    pre_items.drop_first(),
                ).0);
                assert(outcomes@ + run_spec(upper_right, mission.scents@, source@).0
                    =~= outcomes@.drop_last() + run_spec(upper_right, pre_scents, pre_items).0);
            }
        }
        assert(run_spec(upper_right, mission.scents@, source@).0 =~= Seq::<S::Output>::empty());
        assert(outcomes@ + run_spec(upper_right, mission.scents@, source@).0 =~= outcomes@);
        outcomes
    }
}

/// One dispatchable batch item, as `Mission::run` consumes them: a plain
/// robot with its commands, or such a pair wrapped in a parse result whose
/// error passes through dispatch untouched.
pub trait SourceItem: Sized {
    type Output;

    /// What dispatching this item yields, and the scent table afterwards.
    spec fn spec_dispatch(self, upper_right: Point, scents: Seq<Scent>) -> (Self::Output, Seq<
        Scent,
    >);

    /// Dispatch this item against the mission.
    fn dispatch(self, mission: &mut Mission) -> (output: Self::Output)
        ensures
            final(mission).upper_right == old(mission).upper_right,
            (output, final(mission).scents@) == self.spec_dispatch(
                old(mission).upper_right,
                old(mission).scents@,
            ),
    ;
}

impl SourceItem for (Robot, Vec<Command>) {
    type Output = Outcome;

    open spec fn spec_dispatch(self, upper_right: Point, scents: Seq<Scent>) -> (Outcome, Seq<
        Scent,
    >) {
        dispatch_spec(upper_right, scents, self.0, self.1@)
    }

    fn dispatch(self, mission: &mut Mission) -> (output: Outcome) {
        let (robot, commands) = self;
        mission.dispatch(robot, commands.as_slice())
    }
}

impl SourceItem for Result<(Robot, Vec<Command>), String> {
    type Output = Result<Outcome, String>;

    open spec fn spec_dispatch(self, upper_right: Point, scents: Seq<Scent>) -> (Result<
        Outcome,
        String,
    >, Seq<Scent>) {
        match self {
            Ok(item) => {
                let d = dispatch_spec(upper_right, scents, item.0, item.1@);
                (Result::<Outcome, String>::Ok(d.0), d.1)
            },
            Err(message) => (Result::<Outcome, String>::Err(message), scents),
        }
    }

    fn dispatch(self, mission: &mut Mission) -> (output: Result<Outcome, String>) {
        match self {
            Ok((robot, commands)) => Ok(mission.dispatch(robot, commands.as_slice())),
            Err(message) => Err(message),
        }
    }
}

/// What dispatching each item of `items` in order yields, starting from
/// scent table `scents`: the outputs, in order, and the scent table after
/// the whole batch.
pub open spec fn run_spec<S: SourceItem>(
    upper_right: Point,
    scents: Seq<Scent>,
    items: Seq<S>,
) -> (Seq<S::Output>, Seq<Scent>)
    decreases items.len(),
{
    if items.len() == 0 {
        (Seq::<S::Output>::empty(), scents)
    } else {
        let first = items[0].spec_dispatch(upper_right, scents);
        let rest = run_spec(upper_right, first.1, items.drop_first());
        (seq![first.0] + rest.0, rest.1)
    }
}

/// Empty-command law: a robot given no commands succeeds unchanged, and the
/// scent table is untouched.
pub proof fn lemma_dispatch_empty(upper_right: Point, scents: Seq<Scent>, robot: Robot)
    ensures
        dispatch_spec(upper_right, scents, robot, Seq::<Command>::empty()) == (
            Outcome::Success(robot),
            scents,
        ),
{
}

/// Determinism law: the outcome and the new scent table are a function of
/// the grid bound, the scent table, the robot and the commands alone; equal
/// inputs always yield equal results.
pub proof fn lemma_dispatch_deterministic(
    ur1: Point,
    scents1: Seq<Scent>,
    robot1: Robot,
    commands1: Seq<Command>,
    ur2: Point,
    scents2: Seq<Scent>,
    robot2: Robot,
    commands2: Seq<Command>,
)
    requires
        ur1 == ur2,
        scents1 == scents2,
        robot1 == robot2,
        commands1 == commands2,
    ensures
        dispatch_spec(ur1, scents1, robot1, commands1) == dispatch_spec(
            ur2,
            scents2,
            robot2,
            commands2,
        ),
{
}

/// The off-grid attempts a robot would make if every one of them were
/// protected: the departure point and attempted facing of each move that
/// leaves the grid, in order. This is independent of the scent table,
/// because a protected move leaves the robot exactly where it was.
pub open spec fn attempts(upper_right: Point, robot: Robot, commands: Seq<Command>) -> Seq<
    Scent,
>
    decreases commands.len(),
{
    if commands.len() == 0 {
        Seq::<Scent>::empty()
    } else {
        let command = commands[0];
        let nf = next_facing(robot.facing, command);
        let nx = next_x(robot, command);
        let ny = next_y(robot, command);
        if on_grid(upper_right, nx, ny) {
            let moved = Robot { position: Point { x: nx as i32, y: ny as i32 }, facing: nf };
            attempts(upper_right, moved, commands.drop_first())
        } else {
            seq![Scent { position: robot.position, facing: nf }] + attempts(
                upper_right,
                robot,
                commands.drop_first(),
            )
        }
    }
}

/// Where a robot ends if every off-grid attempt is protected: the final
/// state of the all-protected run.
pub open spec fn protected_final(upper_right: Point, robot: Robot, commands: Seq<Command>) -> Robot
    decreases commands.len(),
{
    if commands.len() == 0 {
        robot
    } else {
        let command = commands[0];
        let nf = next_facing(robot.facing, command);
        let nx = next_x(robot, command);
        let ny = next_y(robot, command);
        if on_grid(upper_right, nx, ny) {
            let moved = Robot { position: Point { x: nx as i32, y: ny as i32 }, facing: nf };
            protected_final(upper_right, moved, commands.drop_first())
        } else {
            protected_final(upper_right, robot, commands.drop_first())
        }
    }
}

/// The index of the first attempt in `a` that carries no scent in `scents`,
/// or `a.len()` if every attempt is protected.
pub open spec fn first_blocked(scents: Seq<Scent>, a: Seq<Scent>) -> int
    decreases a.len(),
{
    if a.len() == 0 {
        0
    } else if !has_scent(scents, a[0].position, a[0].facing) {
        0
    } else {
        1 + first_blocked(scents, a.drop_first())
    }
}

/// The first blocked index always lies between zero and the number of
/// attempts, inclusive.
pub proof fn lemma_first_blocked_bounds(scents: Seq<Scent>, a: Seq<Scent>)
    ensures
        0 <= first_blocked(scents, a) <= a.len(),
    decreases a.len(),
{
    if a.len() > 0 && has_scent(scents, a[0].position, a[0].facing) {
        lemma_first_blocked_bounds(scents, a.drop_first());
    }
}

/// Characterization of dispatch by the all-protected attempt trace: if every
/// off-grid attempt carries a scent, the robot succeeds at the protected
/// run's final state and the scent table is unchanged; otherwise the robot
/// is lost at the departure point of the first unprotected attempt, and
/// exactly that attempt is recorded as a fresh scent.
pub proof fn lemma_dispatch_characterized(
    upper_right: Point,
    scents: Seq<Scent>,
    robot: Robot,
    commands: Seq<Command>,
)
    ensures
        ({
            let a = attempts(upper_right, robot, commands);
            let k = first_blocked(scents, a);
            if k >= a.len() {
                dispatch_spec(upper_right, scents, robot, commands) == (
                    Outcome::Success(protected_final(upper_right, robot, commands)),
                    scents,
                )
            } else {
                &&& dispatch_spec(upper_right, scents, robot, commands).0 matches Outcome::Lost(lr)
                    && lr.position == a[k].position
                &&& dispatch_spec(upper_right, scents, robot, commands).1 == scents.push(a[k])
            }
        }),
    decreases commands.len(),
{
    let a = attempts(upper_right, robot, commands);
    let k = first_blocked(scents, a);
    if commands.len() == 0 {
    } else {
        let command = commands[0];
        let rest = commands.drop_first();
        let nf = next_facing(robot.facing, command);
        let nx = next_x(robot, command);
        let ny = next_y(robot, command);
        if on_grid(upper_right, nx, ny) {
            let moved = Robot { position: Point { x: nx as i32, y: ny as i32 }, facing: nf };
            lemma_dispatch_characterized(upper_right, scents, moved, rest);
        } else {
            let s0 = Scent { position: robot.position, facing: nf };
            let a2 = attempts(upper_right, robot, rest);
            assert(a == seq![s0] + a2);
            assert(a[0] == s0);
            assert(a.drop_first() =~= a2);
            if has_scent(scents, robot.position, nf) {
                lemma_dispatch_characterized(upper_right, scents, robot, rest);
                let k2 = first_blocked(scents, a2);
                lemma_first_blocked_bounds(scents, a2);
                assert(k == 1 + k2);
                if k2 < a2.len() {
                    assert(a[k] == a2[k2]);
                }
            }
        }
    }
}

/// A robot that starts on the grid can only be declared lost at a position
/// that is itself on the grid — the departure point of the fatal move — and
/// every scent it leaves is keyed by that on-grid point, never by the
/// off-grid destination.
pub proof fn lemma_lost_position_on_grid(
    upper_right: Point,
    scents: Seq<Scent>,
    robot: Robot,
    commands: Seq<Command>,
)
    requires
        on_grid(upper_right, robot.position.x as int, robot.position.y as int),
    ensures
        ({
            let d = dispatch_spec(upper_right, scents, robot, commands);
            &&& (d.0 matches Outcome::Lost(lost) ==> on_grid(
                upper_right,
                lost.position.x as int,
                lost.position.y as int,
            ))
            &&& (d.0 matches Outcome::Success(rest) ==> on_grid(
                upper_right,
                rest.position.x as int,
                rest.position.y as int,
            ))
            &&& forall|k: int|
                scents.len() <= k < d.1.len() ==> on_grid(
                    upper_right,
                    (#[trigger] d.1[k]).position.x as int,
                    d.1[k].position.y as int,
                ) && d.1[k] == d.1.last()
        }),
    decreases commands.len(),
{
    if commands.len() > 0 {
        let command = commands[0];
        let nf = next_facing(robot.facing, command);
        let nx = next_x(robot, command);
        let ny = next_y(robot, command);
        if on_grid(upper_right, nx, ny) {
            let moved = Robot { position: Point { x: nx as i32, y: ny as i32 }, facing: nf };
            lemma_lost_position_on_grid(upper_right, scents, moved, commands.drop_first());
        } else if has_scent(scents, robot.position, nf) {
            lemma_lost_position_on_grid(upper_right, scents, robot, commands.drop_first());
        }
    }
}

/// Scent protection law (order sensitivity, first half): after one robot is
/// lost, a second robot whose every off-grid attempt is exactly the scent the
/// first robot recorded ends in `Success`, at the protected run's final
/// state — its fatal moves are silently dropped instead of losing it.
pub proof fn lemma_second_robot_protected(
    upper_right: Point,
    scents0: Seq<Scent>,
    robot1: Robot,
    commands1: Seq<Command>,
    robot2: Robot,
    commands2: Seq<Command>,
)
    requires
        dispatch_spec(upper_right, scents0, robot1, commands1).0 is Lost,
        forall|k: int|
            0 <= k < attempts(upper_right, robot2, commands2).len()
                ==> #[trigger] attempts(upper_right, robot2, commands2)[k] == dispatch_spec(
                upper_right,
                scents0,
                robot1,
                commands1,
            ).1.last(),
    ensures
        dispatch_spec(
            upper_right,
            dispatch_spec(upper_right, scents0, robot1, commands1).1,
            robot2,
            commands2,
        ) == (
            Outcome::Success(protected_final(upper_right, robot2, commands2)),
            dispatch_spec(upper_right, scents0, robot1, commands1).1,
        ),
{
    let s1 = dispatch_spec(upper_right, scents0, robot1, commands1).1;
    lemma_dispatch_characterized(upper_right, scents0, robot1, commands1);
    let a1 = attempts(upper_right, robot1, commands1);
    let k1 = first_blocked(scents0, a1);
    assert(s1 == scents0.push(a1[k1]) && s1.last() == a1[k1]);
    let a2 = attempts(upper_right, robot2, commands2);
    assert forall|k: int| 0 <= k < a2.len() implies has_scent(
        s1,
        #[trigger] a2[k].position,
        a2[k].facing,
    ) by {
        assert(a2[k] == s1.last());
        assert(s1[s1.len() - 1] == s1.last());
    }
    lemma_first_blocked_all(s1, a2);
    lemma_dispatch_characterized(upper_right, s1, robot2, commands2);
}

/// If every attempt carries a scent, none is blocked.
proof fn lemma_first_blocked_all(scents: Seq<Scent>, a: Seq<Scent>)
    requires
        forall|k: int|
            0 <= k < a.len() ==> has_scent(scents, #[trigger] a[k].position, a[k].facing),
    ensures
        first_blocked(scents, a) == a.len(),
    decreases a.len(),
{
    if a.len() > 0 {
        assert(a.drop_first() =~= a.subrange(1, a.len() as int));
        assert forall|k: int| 0 <= k < a.drop_first().len() implies has_scent(
            scents,
            #[trigger] a.drop_first()[k].position,
            a.drop_first()[k].facing,
        ) by {
            assert(a.drop_first()[k] == a[k + 1]);
        }
        lemma_first_blocked_all(scents, a.drop_first());
    }
}

/// A lost dispatch records exactly one new scent: the scent table after the
/// dispatch is the old table with one marker appended, whose point is the
/// position where the robot was declared lost.
pub proof fn lemma_lost_records_scent(
    upper_right: Point,
    scents: Seq<Scent>,
    robot: Robot,
    commands: Seq<Command>,
)
    requires
        dispatch_spec(upper_right, scents, robot, commands).0 is Lost,
    ensures
        ({
            let d = dispatch_spec(upper_right, scents, robot, commands);
            &&& d.1 == scents.push(d.1.last())
            &&& d.1.len() == scents.len() + 1
            &&& d.0 matches Outcome::Lost(lr) && lr.position == d.1.last().position
        }),
{
    lemma_dispatch_characterized(upper_right, scents, robot, commands);
    let a = attempts(upper_right, robot, commands);
    let k = first_blocked(scents, a);
    if k >= a.len() {
        // impossible: the dispatch would have been a success
        assert(false);
    }
}

/// Scent order sensitivity (second half): a robot whose first off-grid
/// attempt carries no scent — for example because the facing differs from
/// the one recorded there — is still lost, at that attempt's departure
/// point, and a fresh scent for its own attempted facing is recorded.
pub proof fn lemma_unprotected_facing_still_lost(
    upper_right: Point,
    scents: Seq<Scent>,
    robot: Robot,
    commands: Seq<Command>,
)
    requires
        attempts(upper_right, robot, commands).len() > 0,
        !has_scent(
            scents,
            attempts(upper_right, robot, commands)[0].position,
            attempts(upper_right, robot, commands)[0].facing,
        ),
    ensures
        ({
            let a = attempts(upper_right, robot, commands);
            let d = dispatch_spec(upper_right, scents, robot, commands);
            &&& d.0 matches Outcome::Lost(lr) && lr.position == a[0].position
            &&& d.1 == scents.push(a[0])
        }),
{
    lemma_dispatch_characterized(upper_right, scents, robot, commands);
}

} // verus!

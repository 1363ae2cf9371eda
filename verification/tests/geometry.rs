use martian_robots::geo::location::Point;
use martian_robots::geo::orientation::Orientation::{East, North, South, West};
use martian_robots::geo::orientation::TurnDirection::{Left, Right};
use martian_robots::robot::{Command, Robot};

#[test]
fn turns_left() {
    let pairs = [(North, West), (West, South), (South, East), (East, North)];
    for &(before, after) in &pairs {
        assert_eq!(before.turn(Left), after);
    }
}

#[test]
fn turns_right() {
    let pairs = [(North, West), (West, South), (South, East), (East, North)];
    for &(before, after) in &pairs {
        assert_eq!(before.turn(Left), after);
    }
}

#[test]
fn turning_right_then_left_returns() {
    for &o in &[North, East, South, West] {
        assert_eq!(o.turn(Left).turn(Right), o);
        assert_eq!(o.turn(Right).turn(Left), o);
    }
}

#[test]
fn four_turns_return() {
    for &o in &[North, East, South, West] {
        assert_eq!(o.turn(Left).turn(Left).turn(Left).turn(Left), o);
        assert_eq!(o.turn(Right).turn(Right).turn(Right).turn(Right), o);
    }
}

#[test]
fn unit_vectors() {
    assert_eq!(North.as_point(), Point { x: 0, y: 1 });
    assert_eq!(East.as_point(), Point { x: 1, y: 0 });
    assert_eq!(South.as_point(), Point { x: 0, y: -1 });
    assert_eq!(West.as_point(), Point { x: -1, y: 0 });
}

#[test]
fn robot_turns_left() {
    let robot = Robot {
        position: Point { x: 1, y: 2 },
        facing: East,
    };

    let expected = Robot {
        position: Point { x: 1, y: 2 },
        facing: North,
    };
    let actual = robot.advance(Command::Left);
    assert_eq!(actual, expected);
}

#[test]
fn robot_turns_right() {
    let robot = Robot {
        position: Point { x: 1, y: 2 },
        facing: East,
    };

    let expected = Robot {
        position: Point { x: 1, y: 2 },
        facing: South,
    };
    let actual = robot.advance(Command::Right);
    assert_eq!(actual, expected);
}

#[test]
fn robot_moves_forward() {
    let robot = Robot {
        position: Point { x: 1, y: 2 },
        facing: East,
    };

    let expected = Robot {
        position: Point { x: 2, y: 2 },
        facing: East,
    };
    let actual = robot.advance(Command::Forward);
    assert_eq!(actual, expected);
}

#[test]
fn all_twelve_transitions() {
    let at = |x: i32, y: i32, facing| Robot {
        position: Point { x, y },
        facing,
    };
    let start = |facing| at(2, 2, facing);
    // rotations leave the position alone
    assert_eq!(start(North).advance(Command::Left), start(West));
    assert_eq!(start(West).advance(Command::Left), start(South));
    assert_eq!(start(South).advance(Command::Left), start(East));
    assert_eq!(start(East).advance(Command::Left), start(North));
    assert_eq!(start(North).advance(Command::Right), start(East));
    assert_eq!(start(East).advance(Command::Right), start(South));
    assert_eq!(start(South).advance(Command::Right), start(West));
    assert_eq!(start(West).advance(Command::Right), start(North));
    // forward moves one cell along the facing
    assert_eq!(start(North).advance(Command::Forward), at(2, 3, North));
    assert_eq!(start(East).advance(Command::Forward), at(3, 2, East));
    assert_eq!(start(South).advance(Command::Forward), at(2, 1, South));
    assert_eq!(start(West).advance(Command::Forward), at(1, 2, West));
}

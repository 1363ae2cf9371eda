use martian_robots::geo::location::Point;
use martian_robots::geo::orientation::Orientation::{East, North, South, West};
use martian_robots::mission::{Mission, Outcome};
use martian_robots::robot::Command::{Forward as F, Left as L, Right as R};
use martian_robots::robot::Robot;

#[test]
fn simple_robot() {
    let robot = Robot {
        position: Point { x: 1, y: 1 },
        facing: East,
    };

    let expected = Outcome::Success(Robot {
        position: Point { x: 1, y: 1 },
        facing: East,
    });

    let actual = Mission::run(
        Point { x: 5, y: 3 },
        vec![(robot, vec![R, F, R, F, R, F, R, F])],
    );

    assert_eq!(actual, vec![expected]);
}

#[test]
fn robot_is_lost() {
    let robot = Robot {
        position: Point { x: 3, y: 2 },
        facing: North,
    };

    let expected = Outcome::Lost(Robot {
        position: Point { x: 3, y: 3 },
        facing: North,
    });

    let actual = Mission::run(
        Point { x: 5, y: 3 },
        vec![(robot, vec![F, R, R, F, L, L, F, F, R, R, F, L, L])],
    );

    assert_eq!(actual, vec![expected]);
}

#[test]
fn robots_are_clever() {
    let mission = vec![
        (
            Robot {
                position: Point { x: 3, y: 2 },
                facing: North,
            },
            vec![F, R, R, F, L, L, F, F, R, R, F, L, L],
        ),
        (
            Robot {
                position: Point { x: 0, y: 3 },
                facing: West,
            },
            vec![L, L, F, F, F, L, F, L, F, L],
        ),
    ];

    let expected = vec![
        Outcome::Lost(Robot {
            position: Point { x: 3, y: 3 },
            facing: North,
        }),
        Outcome::Success(Robot {
            position: Point { x: 2, y: 3 },
            facing: South,
        }),
    ];

    let actual = Mission::run(Point { x: 5, y: 3 }, mission);

    assert_eq!(actual, expected);
}

#[test]
fn canonical_three_robot_batch() {
    let mut mission = Mission::new(Point { x: 5, y: 3 });

    let first = mission.dispatch(
        Robot {
            position: Point { x: 1, y: 1 },
            facing: East,
        },
        &[R, F, R, F, R, F, R, F],
    );
    assert_eq!(
        first,
        Outcome::Success(Robot {
            position: Point { x: 1, y: 1 },
            facing: East,
        })
    );

    let second = mission.dispatch(
        Robot {
            position: Point { x: 3, y: 2 },
            facing: North,
        },
        &[F, R, R, F, L, L, F, F, R, R, F, L, L],
    );
    assert_eq!(
        second,
        Outcome::Lost(Robot {
            position: Point { x: 3, y: 3 },
            facing: North,
        })
    );

    let third = mission.dispatch(
        Robot {
            position: Point { x: 0, y: 3 },
            facing: West,
        },
        &[L, L, F, F, F, L, F, L, F, L],
    );
    assert_eq!(
        third,
        Outcome::Success(Robot {
            position: Point { x: 2, y: 3 },
            facing: South,
        })
    );
}

#[test]
fn empty_commands_succeed_unchanged() {
    let mut mission = Mission::new(Point { x: 5, y: 3 });
    let robot = Robot {
        position: Point { x: 4, y: 2 },
        facing: South,
    };
    assert_eq!(mission.dispatch(robot, &[]), Outcome::Success(robot));
    assert!(mission.scents.is_empty());
}

#[test]
fn dispatch_is_deterministic() {
    let robot = Robot {
        position: Point { x: 3, y: 2 },
        facing: North,
    };
    let commands = vec![F, R, R, F, L, L, F, F, R, R, F, L, L];
    let mut first = Mission::new(Point { x: 5, y: 3 });
    let mut second = Mission::new(Point { x: 5, y: 3 });
    assert_eq!(
        first.dispatch(robot, &commands),
        second.dispatch(robot, &commands)
    );
    assert_eq!(first.scents, second.scents);
}

#[test]
fn scent_protects_second_robot() {
    let mut mission = Mission::new(Point { x: 5, y: 3 });

    // the first robot is lost at (3, 3) attempting to move north
    let lost = mission.dispatch(
        Robot {
            position: Point { x: 3, y: 2 },
            facing: North,
        },
        &[F, F],
    );
    assert_eq!(
        lost,
        Outcome::Lost(Robot {
            position: Point { x: 3, y: 3 },
            facing: North,
        })
    );

    // a second robot attempting the same fatal move is protected
    let protected = mission.dispatch(
        Robot {
            position: Point { x: 3, y: 3 },
            facing: North,
        },
        &[F],
    );
    assert_eq!(
        protected,
        Outcome::Success(Robot {
            position: Point { x: 3, y: 3 },
            facing: North,
        })
    );
}

#[test]
fn different_facing_is_still_lost() {
    let mut mission = Mission::new(Point { x: 5, y: 3 });

    // the first robot is lost at the corner (5, 3) attempting to move north
    let lost_north = mission.dispatch(
        Robot {
            position: Point { x: 5, y: 3 },
            facing: North,
        },
        &[F],
    );
    assert_eq!(
        lost_north,
        Outcome::Lost(Robot {
            position: Point { x: 5, y: 3 },
            facing: North,
        })
    );

    // a robot blocked at the same point but facing east is not protected
    let lost_east = mission.dispatch(
        Robot {
            position: Point { x: 5, y: 3 },
            facing: East,
        },
        &[F],
    );
    assert_eq!(
        lost_east,
        Outcome::Lost(Robot {
            position: Point { x: 5, y: 3 },
            facing: East,
        })
    );

    // and its own fresh scent now protects a robot repeating that move
    let protected = mission.dispatch(
        Robot {
            position: Point { x: 5, y: 3 },
            facing: East,
        },
        &[F],
    );
    assert_eq!(
        protected,
        Outcome::Success(Robot {
            position: Point { x: 5, y: 3 },
            facing: East,
        })
    );
}

#[test]
fn parse_results_dispatch_through_run() {
    let items: Vec<Result<(Robot, Vec<martian_robots::robot::Command>), String>> = vec![
        Ok((
            Robot {
                position: Point { x: 1, y: 1 },
                facing: East,
            },
            vec![R, F, R, F, R, F, R, F],
        )),
        Err(String::from("expected a robot record")),
    ];

    let outcomes = Mission::run(Point { x: 5, y: 3 }, items);
    assert_eq!(
        outcomes[0],
        Ok(Outcome::Success(Robot {
            position: Point { x: 1, y: 1 },
            facing: East,
        }))
    );
    assert_eq!(outcomes[1], Err(String::from("expected a robot record")));
}

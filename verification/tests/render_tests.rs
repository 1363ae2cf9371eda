use martian_robots::geo::location::Point;
use martian_robots::geo::orientation::Orientation::{East, North, South};
use martian_robots::mission::Outcome;
use martian_robots::parser::MissionPlan;
use martian_robots::render::{format_outcome, format_plan, format_robot};
use martian_robots::robot::Command::{Forward as F, Left as L, Right as R};
use martian_robots::robot::{Command, Robot};

#[test]
fn formats_a_robot() {
    let robot = Robot {
        position: Point { x: 1, y: 1 },
        facing: East,
    };
    assert_eq!(format_robot(&robot), b"1 1 E".to_vec());
}

#[test]
fn formats_a_successful_outcome() {
    let outcome = Outcome::Success(Robot {
        position: Point { x: 2, y: 3 },
        facing: South,
    });
    assert_eq!(format_outcome(&outcome), b"2 3 S".to_vec());
}

#[test]
fn formats_a_lost_outcome() {
    let outcome = Outcome::Lost(Robot {
        position: Point { x: 3, y: 3 },
        facing: North,
    });
    assert_eq!(format_outcome(&outcome), b"3 3 N LOST".to_vec());
}

#[test]
fn formats_multi_digit_coordinates() {
    let robot = Robot {
        position: Point { x: 31, y: 240 },
        facing: North,
    };
    assert_eq!(format_robot(&robot), b"31 240 N".to_vec());
}

#[test]
fn formats_zero() {
    let robot = Robot {
        position: Point { x: 0, y: 0 },
        facing: North,
    };
    assert_eq!(format_robot(&robot), b"0 0 N".to_vec());
}

#[test]
fn formats_a_whole_plan() {
    let items: Vec<(Robot, Vec<Command>)> = vec![(
        Robot {
            position: Point { x: 1, y: 1 },
            facing: East,
        },
        vec![R, F, R, F],
    )];
    let text = format_plan(Point { x: 5, y: 3 }, &items);
    assert_eq!(text, b"5 3\n1 1 E\nRFRF\n".to_vec());
}

#[test]
fn formatted_plan_parses_back() {
    let items: Vec<(Robot, Vec<Command>)> = vec![
        (
            Robot {
                position: Point { x: 1, y: 1 },
                facing: East,
            },
            vec![R, F, R, F, R, F, R, F],
        ),
        (
            Robot {
                position: Point { x: 3, y: 2 },
                facing: North,
            },
            vec![F, R, R, F, L, L, F, F, R, R, F, L, L],
        ),
        (
            Robot {
                position: Point { x: 0, y: 3 },
                facing: martian_robots::geo::orientation::Orientation::West,
            },
            vec![L, L, F, F, F, L, F, L, F, L],
        ),
    ];
    let upper_right = Point { x: 5, y: 3 };

    let text = format_plan(upper_right, &items);
    let mut plan = MissionPlan::read(text).expect("the rendered plan must parse");
    assert_eq!(plan.upper_right, upper_right);

    let mut parsed: Vec<(Robot, Vec<Command>)> = Vec::new();
    while let Some(item) = plan.next() {
        parsed.push(item.expect("every rendered record must parse"));
    }
    assert_eq!(parsed, items);
}

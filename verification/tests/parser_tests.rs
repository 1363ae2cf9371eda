use martian_robots::geo::location::Point;
use martian_robots::geo::orientation::Orientation;
use martian_robots::mission::Outcome;
use martian_robots::parser::{
    parse_commands, parse_outcome, parse_point, parse_robot, MissionOutcomes, MissionPlan,
};
use martian_robots::robot::Command::{Forward as F, Left as L, Right as R};
use martian_robots::robot::{Command, Robot};

fn collect_plan(plan: &mut MissionPlan) -> Vec<Result<(Robot, Vec<Command>), String>> {
    let mut items = Vec::new();
    while let Some(item) = plan.next() {
        items.push(item);
    }
    items
}

fn collect_outcomes(outcomes: &mut MissionOutcomes) -> Vec<Result<Outcome, String>> {
    let mut items = Vec::new();
    while let Some(item) = outcomes.next() {
        items.push(item);
    }
    items
}

#[test]
fn recognises_a_simple_point() {
    let input = b"3 4".to_vec();
    let (actual, _) = parse_point(&input, 0).unwrap();
    let expected = Point { x: 3, y: 4 };

    assert_eq!(actual, expected)
}

#[test]
fn recognises_a_point_with_extra_whitespace() {
    let input = b"3  \t 4".to_vec();
    let (actual, _) = parse_point(&input, 0).unwrap();
    let expected = Point { x: 3, y: 4 };

    assert_eq!(actual, expected)
}

#[test]
fn does_not_recognise_a_point_with_whitespaces_in_front() {
    let input = b" 3  \t 4".to_vec();
    let actual = parse_point(&input, 0);

    assert_eq!(actual, None);
}

#[test]
fn recognises_commands() {
    let input = b"LRFFLFR".to_vec();
    let (actual, _) = parse_commands(&input, 0).unwrap();
    let expected = vec![L, R, F, F, L, F, R];

    assert_eq!(actual, expected)
}

#[test]
fn recognises_a_robot() {
    let input = b"4  5  W\n\r  LRFFLFR\n".to_vec(); // we don't discriminate against whitespace
    let (robot, commands, _) = parse_robot(&input, 0).unwrap();
    let expected = (
        Robot {
            position: Point { x: 4, y: 5 },
            facing: Orientation::West,
        },
        vec![L, R, F, F, L, F, R],
    );

    assert_eq!((robot, commands), expected)
}

#[test]
fn recognises_a_positive_outcome() {
    let input = b"4  5  W\n".to_vec();
    let (actual, _) = parse_outcome(&input, 0).unwrap();
    let expected = Outcome::Success(Robot {
        position: Point { x: 4, y: 5 },
        facing: Orientation::West,
    });

    assert_eq!(actual, expected)
}

#[test]
fn recognises_a_negative_outcome() {
    let input = b"4  5  E   LOST\n".to_vec();
    let outcome = parse_outcome(&input, 0);
    let expected = Outcome::Lost(Robot {
        position: Point { x: 4, y: 5 },
        facing: Orientation::East,
    });

    match outcome {
        Some((actual, _)) => assert_eq!(actual, expected),
        None => panic!("expected an outcome"),
    }
}

#[test]
fn reads_upper_right() {
    let input = b"  31 24\n".to_vec();

    let actual = MissionPlan::read(input).unwrap().upper_right;
    let expected = Point { x: 31, y: 24 };

    assert_eq!(actual, expected)
}

#[test]
fn reads_one_robot() {
    let input = b"  31 24\n   1 1 E\nLFLFLFLF\n".to_vec();

    let actual = MissionPlan::read(input).unwrap().next();
    let expected = Some(Ok((
        Robot {
            position: Point { x: 1, y: 1 },
            facing: Orientation::East,
        },
        vec![L, F, L, F, L, F, L, F],
    )));

    assert_eq!(actual, expected)
}

#[test]
fn collects_three_robots() {
    let input = b"31 24\n1 1 E\nLFLFLFLF\n\n3 2 N\nFRRFLLFFRRFLL\n\n0 3 W\nLLFFFLFLFL\n".to_vec();

    let mut plan = MissionPlan::read(input).unwrap();
    let actual = collect_plan(&mut plan);
    let expected = vec![
        Ok((
            Robot {
                position: Point { x: 1, y: 1 },
                facing: Orientation::East,
            },
            vec![L, F, L, F, L, F, L, F],
        )),
        Ok((
            Robot {
                position: Point { x: 3, y: 2 },
                facing: Orientation::North,
            },
            vec![F, R, R, F, L, L, F, F, R, R, F, L, L],
        )),
        Ok((
            Robot {
                position: Point { x: 0, y: 3 },
                facing: Orientation::West,
            },
            vec![L, L, F, F, F, L, F, L, F, L],
        )),
    ];

    assert_eq!(actual, expected);
}

#[test]
fn reads_one_outcome() {
    let input = b"  22 11 E LOST\n".to_vec();

    let actual = MissionOutcomes::read(input).next();
    let expected = Some(Ok(Outcome::Lost(Robot {
        position: Point { x: 22, y: 11 },
        facing: Orientation::East,
    })));

    assert_eq!(actual, expected)
}

#[test]
fn reads_three_outcomes() {
    let input = b"  1 2 W\n3 3 N LOST\n5 2 S".to_vec();

    let mut outcomes = MissionOutcomes::read(input);
    let actual = collect_outcomes(&mut outcomes);
    let expected = vec![
        Ok(Outcome::Success(Robot {
            position: Point { x: 1, y: 2 },
            facing: Orientation::West,
        })),
        Ok(Outcome::Lost(Robot {
            position: Point { x: 3, y: 3 },
            facing: Orientation::North,
        })),
        Ok(Outcome::Success(Robot {
            position: Point { x: 5, y: 2 },
            facing: Orientation::South,
        })),
    ];

    assert_eq!(actual, expected)
}

#[test]
fn record_at_end_of_input_needs_no_trailing_newline() {
    let input = b"5 3\n1 1 E\nRFRF".to_vec();
    let mut plan = MissionPlan::read(input).unwrap();
    let record = plan.next().unwrap().unwrap();
    assert_eq!(record.1, vec![R, F, R, F]);
    assert_eq!(plan.next(), None);
}

#[test]
fn rejects_a_missing_grid_size() {
    assert!(MissionPlan::read(b"".to_vec()).is_err());
    assert!(MissionPlan::read(b"N 3\n".to_vec()).is_err());
    assert!(MissionPlan::read(b"5\n".to_vec()).is_err());
}

#[test]
fn grid_size_overflow_is_an_error() {
    assert!(MissionPlan::read(b"99999999999 3\n".to_vec()).is_err());
    // the largest representable coordinate still parses
    let plan = MissionPlan::read(b"2147483647 0\n".to_vec()).unwrap();
    assert_eq!(plan.upper_right, Point { x: 2147483647, y: 0 });
}

#[test]
fn coordinate_overflow_is_a_malformed_record() {
    let input = b"5 3\n2147483648 1 E\nF\n".to_vec();
    let mut plan = MissionPlan::read(input).unwrap();
    assert!(matches!(plan.next(), Some(Err(_))));
    assert_eq!(plan.next(), None);
}

#[test]
fn leading_zeros_are_accepted() {
    let input = b"5 3\n007 01 E\nF\n".to_vec();
    let mut plan = MissionPlan::read(input).unwrap();
    let record = plan.next().unwrap().unwrap();
    assert_eq!(
        record.0,
        Robot {
            position: Point { x: 7, y: 1 },
            facing: Orientation::East,
        }
    );
}

#[test]
fn rejects_a_bad_orientation_letter() {
    let input = b"5 3\n1 1 Q\nF\n".to_vec();
    let mut plan = MissionPlan::read(input).unwrap();
    assert!(matches!(plan.next(), Some(Err(_))));
}

#[test]
fn rejects_an_empty_command_run() {
    let input = b"5 3\n1 1 E\n\n".to_vec();
    let mut plan = MissionPlan::read(input).unwrap();
    assert!(matches!(plan.next(), Some(Err(_))));
}

#[test]
fn requires_whitespace_between_point_and_orientation() {
    let input = b"5 3\n1 1E\nF\n".to_vec();
    let mut plan = MissionPlan::read(input).unwrap();
    assert!(matches!(plan.next(), Some(Err(_))));
}

#[test]
fn error_in_second_record_ends_the_stream() {
    // one good record, one malformed one: exactly one success, then exactly
    // one error, then nothing
    let input = b"5 3\n1 1 E\nRFRF\n2 2 Q\nFF\n".to_vec();
    let mut plan = MissionPlan::read(input).unwrap();

    let first = plan.next();
    assert_eq!(
        first,
        Some(Ok((
            Robot {
                position: Point { x: 1, y: 1 },
                facing: Orientation::East,
            },
            vec![R, F, R, F],
        )))
    );
    assert!(matches!(plan.next(), Some(Err(_))));
    assert_eq!(plan.next(), None);
    assert_eq!(plan.next(), None);
}

#[test]
fn early_records_parse_without_touching_the_tail() {
    // the tail of this input is garbage, but only the first record is
    // requested, so no error ever surfaces
    let input = b"5 3\n1 1 E\nRFRF\n&&& not a record &&&".to_vec();
    let mut plan = MissionPlan::read(input).unwrap();

    let first = plan.next();
    assert_eq!(
        first,
        Some(Ok((
            Robot {
                position: Point { x: 1, y: 1 },
                facing: Orientation::East,
            },
            vec![R, F, R, F],
        )))
    );
}

#[test]
fn outcome_stream_stops_at_first_error() {
    let input = b"1 2 W\n3 3 X LOST\n5 2 S".to_vec();
    let mut outcomes = MissionOutcomes::read(input);
    assert_eq!(
        outcomes.next(),
        Some(Ok(Outcome::Success(Robot {
            position: Point { x: 1, y: 2 },
            facing: Orientation::West,
        })))
    );
    assert!(matches!(outcomes.next(), Some(Err(_))));
    assert_eq!(outcomes.next(), None);
}

#[test]
fn partial_lost_word_is_an_error() {
    let input = b"4 5 W LO\n".to_vec();
    let mut outcomes = MissionOutcomes::read(input);
    assert!(matches!(outcomes.next(), Some(Err(_))));
}

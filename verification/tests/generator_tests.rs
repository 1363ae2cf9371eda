use martian_robots::generator::Generator;

#[test]
fn creates_mission() {
    let generator = Generator::new(12345);
    assert!(1 <= generator.upper_right.x && generator.upper_right.x <= 50);
    assert!(1 <= generator.upper_right.y && generator.upper_right.y <= 50);
    // the grid bound is a pure function of the seed
    assert_eq!(generator.upper_right, Generator::new(12345).upper_right);
}

#[test]
fn generates_three_robots() {
    let mut first = Generator::new(12345);
    let mut second = Generator::new(12345);

    for _ in 0..3 {
        let (robot, commands) = first.next_robot();
        // every drawn robot starts on the grid with at least one command
        assert!(0 <= robot.position.x && robot.position.x < first.upper_right.x);
        assert!(0 <= robot.position.y && robot.position.y < first.upper_right.y);
        assert!(1 <= commands.len() && commands.len() <= 99);
        // the stream is deterministic in the seed
        assert_eq!((robot, commands), second.next_robot());
    }
}

#[test]
fn different_seeds_may_differ() {
    // not a guarantee for every pair of seeds, but these two must not
    // collide in every drawn value for the generator to be useful
    let mut a = Generator::new(1);
    let mut b = Generator::new(2);
    let same_bound = a.upper_right == b.upper_right;
    let same_first = a.next_robot() == b.next_robot();
    assert!(!(same_bound && same_first));
}

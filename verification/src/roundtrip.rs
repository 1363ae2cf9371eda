//! The formatter and the parser are inverse: a plan rendered from a grid
//! bound and a batch of robot records parses back to exactly that structure.

use vstd::prelude::*;
use crate::geo::location::Point;
use crate::robot::{Command, Robot};
use crate::parser::{
    commands_of, digits_val, is_command, is_digit, is_ws, lemma_command_run_scan,
    lemma_digit_run_scan, lemma_skip_ws_bounds, lemma_ws_run_scan, skip_ws, spec_parse_commands,
    spec_parse_coord, spec_parse_orientation, spec_parse_plan, spec_parse_point,
    spec_parse_records, spec_parse_robot,
};
use crate::render::{
    command_byte, orientation_byte, spec_fmt_commands, spec_fmt_nat, spec_fmt_plan,
    spec_fmt_point, spec_fmt_records, spec_fmt_robot, spec_fmt_robot_record,
};

verus! {

/// The decimal rendering of a number is a nonempty run of digit bytes.
pub proof fn lemma_fmt_nat_digits(n: nat)
    ensures
        spec_fmt_nat(n).len() >= 1,
        forall|k: int| 0 <= k < spec_fmt_nat(n).len() ==> is_digit(#[trigger] spec_fmt_nat(n)[k]),
    decreases n,
{
    if n < 10 {
    } else {
        lemma_fmt_nat_digits(n / 10);
        assert forall|k: int| 0 <= k < spec_fmt_nat(n).len() implies is_digit(
            #[trigger] spec_fmt_nat(n)[k],
        ) by {
            if k < spec_fmt_nat(n / 10).len() {
                assert(spec_fmt_nat(n)[k] == spec_fmt_nat(n / 10)[k]);
            } else {
                assert(spec_fmt_nat(n)[k] == (48 + n % 10) as u8);
            }
        }
    }
}

/// Reading the decimal rendering of a number back gives the number.
pub proof fn lemma_fmt_nat_val(n: nat)
    ensures
        digits_val(spec_fmt_nat(n)) == n,
    decreases n,
{
    if n < 10 {
        let f = spec_fmt_nat(n);
        assert(f.drop_last() =~= Seq::<u8>::empty());
        assert(digits_val(Seq::<u8>::empty()) == 0);
        assert(f.last() == (48 + n) as u8);
        assert(digits_val(f) == 0 * 10 + ((48 + n) as u8 - 48));
    } else {
        lemma_fmt_nat_val(n / 10);
        vstd::arithmetic::div_mod::lemma_mod_bound(n as int, 10);
        let f = spec_fmt_nat(n / 10);
        let d = (48 + n % 10) as u8;
        assert(n % 10 < 10);
        assert(d - 48 == n % 10);
        assert(spec_fmt_nat(n) == f.push(d));
        assert(f.push(d).drop_last() =~= f);
        assert(f.push(d).last() == d);
        assert(digits_val(f.push(d)) == digits_val(f) * 10 + (d - 48));
        vstd::arithmetic::div_mod::lemma_fundamental_div_mod(n as int, 10);
    }
}

/// A coordinate rendered at `i` and followed by a non-digit parses back to
/// itself, ending right after its digits.
pub proof fn lemma_parse_coord_at(s: Seq<u8>, i: int, v: i32)
    requires
        v >= 0,
        0 <= i,
        i + spec_fmt_nat(v as nat).len() <= s.len(),
        s.subrange(i, i + spec_fmt_nat(v as nat).len() as int) == spec_fmt_nat(v as nat),
        i + spec_fmt_nat(v as nat).len() == s.len() || !is_digit(
            s[i + spec_fmt_nat(v as nat).len()],
        ),
    ensures
        spec_parse_coord(s, i) == Some((v, i + spec_fmt_nat(v as nat).len() as int)),
{
    let f = spec_fmt_nat(v as nat);
    let e = i + f.len() as int;
    lemma_fmt_nat_digits(v as nat);
    assert forall|m: int| i <= m < e implies is_digit(s[m]) by {
        assert(s[m] == f[m - i]);
    }
    lemma_digit_run_scan(s, i, e);
    lemma_fmt_nat_val(v as nat);
    assert(s.subrange(i, e) == f);
}

/// A point rendered at `i` and followed by a non-digit parses back to
/// itself.
pub proof fn lemma_parse_point_at(s: Seq<u8>, i: int, p: Point)
    requires
        p.x >= 0,
        p.y >= 0,
        0 <= i,
        i + spec_fmt_point(p).len() <= s.len(),
        s.subrange(i, i + spec_fmt_point(p).len() as int) == spec_fmt_point(p),
        i + spec_fmt_point(p).len() == s.len() || !is_digit(s[i + spec_fmt_point(p).len()]),
    ensures
        spec_parse_point(s, i) == Some((p, i + spec_fmt_point(p).len() as int)),
{
    let fx = spec_fmt_nat(p.x as nat);
    let fy = spec_fmt_nat(p.y as nat);
    let a = i + fx.len() as int;
    let e = i + spec_fmt_point(p).len() as int;
    lemma_fmt_nat_digits(p.x as nat);
    lemma_fmt_nat_digits(p.y as nat);
    assert(spec_fmt_point(p) == fx + seq![32u8] + fy);
    assert(e == a + 1 + fy.len());
    assert(s.subrange(i, a) =~= fx) by {
        assert forall|k: int| 0 <= k < fx.len() implies s.subrange(i, a)[k] == fx[k] by {
            assert(s[i + k] == spec_fmt_point(p)[k]);
        }
    }
    assert(s[a] == spec_fmt_point(p)[fx.len() as int]);
    assert(s[a] == 32);
    assert(s.subrange(a + 1, e) =~= fy) by {
        assert forall|k: int| 0 <= k < fy.len() implies s.subrange(a + 1, e)[k] == fy[k] by {
            assert(s[a + 1 + k] == spec_fmt_point(p)[fx.len() + 1 + k]);
        }
    }
    lemma_parse_coord_at(s, i, p.x);
    assert(is_digit(s[a + 1])) by {
        assert(s[a + 1] == fy[0]);
    }
    lemma_ws_run_scan(s, a, a + 1);
    lemma_parse_coord_at(s, a + 1, p.y);
}

/// A command run renders to command letters, one per command.
pub proof fn lemma_fmt_commands_letters(commands: Seq<Command>)
    ensures
        spec_fmt_commands(commands).len() == commands.len(),
        forall|k: int|
            0 <= k < commands.len() ==> is_command(#[trigger] spec_fmt_commands(commands)[k]),
    decreases commands.len(),
{
    if commands.len() > 0 {
        lemma_fmt_commands_letters(commands.drop_last());
        assert forall|k: int| 0 <= k < commands.len() implies is_command(
            #[trigger] spec_fmt_commands(commands)[k],
        ) by {
            if k < commands.len() - 1 {
                assert(spec_fmt_commands(commands)[k] == spec_fmt_commands(
                    commands.drop_last(),
                )[k]);
            } else {
                assert(spec_fmt_commands(commands)[k] == command_byte(commands.last()));
            }
        }
    }
}

/// Reading a rendered command run back gives the commands.
pub proof fn lemma_commands_of_fmt(commands: Seq<Command>)
    ensures
        commands_of(spec_fmt_commands(commands)) == commands,
    decreases commands.len(),
{
    if commands.len() == 0 {
        assert(commands_of(spec_fmt_commands(commands)) =~= commands);
    } else {
        lemma_commands_of_fmt(commands.drop_last());
        let f = spec_fmt_commands(commands);
        assert(f.drop_last() =~= spec_fmt_commands(commands.drop_last()));
        assert(f.last() == command_byte(commands.last()));
        assert(commands.drop_last().push(commands.last()) =~= commands);
    }
}

/// A command run rendered at `i` and followed by a non-command letter parses
/// back to itself.
pub proof fn lemma_parse_commands_at(s: Seq<u8>, i: int, commands: Seq<Command>)
    requires
        commands.len() >= 1,
        0 <= i,
        i + commands.len() <= s.len(),
        s.subrange(i, i + commands.len() as int) == spec_fmt_commands(commands),
        i + commands.len() == s.len() || !is_command(s[i + commands.len()]),
    ensures
        spec_parse_commands(s, i) == Some((commands, i + commands.len() as int)),
{
    let e = i + commands.len() as int;
    lemma_fmt_commands_letters(commands);
    assert forall|m: int| i <= m < e implies is_command(s[m]) by {
        assert(s[m] == spec_fmt_commands(commands)[m - i]);
    }
    lemma_command_run_scan(s, i, e);
    lemma_commands_of_fmt(commands);
    assert(s.subrange(i, e) == spec_fmt_commands(commands));
}

/// A robot record rendered at `i` parses back to itself, ending on the
/// record's final line feed (which the record parser leaves unconsumed).
pub proof fn lemma_parse_robot_at(s: Seq<u8>, i: int, robot: Robot, commands: Seq<Command>)
    requires
        robot.position.x >= 0,
        robot.position.y >= 0,
        commands.len() >= 1,
        0 <= i,
        i + spec_fmt_robot_record(robot, commands).len() <= s.len(),
        s.subrange(i, i + spec_fmt_robot_record(robot, commands).len() as int)
            == spec_fmt_robot_record(robot, commands),
    ensures
        spec_parse_robot(s, i) == Some(
            ((robot, commands), i + spec_fmt_robot_record(robot, commands).len() - 1),
        ),
        s[i + spec_fmt_robot_record(robot, commands).len() - 1] == 10,
        spec_fmt_robot_record(robot, commands).len() >= 6,
{
    let record = spec_fmt_robot_record(robot, commands);
    let fp = spec_fmt_point(robot.position);
    let fc = spec_fmt_commands(commands);
    let a = i + fp.len() as int;
    lemma_fmt_commands_letters(commands);
    lemma_fmt_nat_digits(robot.position.x as nat);
    lemma_fmt_nat_digits(robot.position.y as nat);
    assert(spec_fmt_robot(robot) == fp + seq![32u8] + seq![orientation_byte(robot.facing)]);
    assert(record == spec_fmt_robot(robot) + seq![10u8] + fc + seq![10u8]);
    assert(record.len() == fp.len() + 3 + commands.len() + 1);
    assert(s.subrange(i, a + 3 + commands.len() as int + 1) == record);
    assert(s.subrange(i, a) =~= fp) by {
        assert forall|k: int| 0 <= k < fp.len() implies s.subrange(i, a)[k] == fp[k] by {
            assert(s[i + k] == record[k]);
        }
    }
    assert(s[a] == record[fp.len() as int] && s[a + 1] == record[fp.len() as int + 1] && s[a + 2]
        == record[fp.len() as int + 2]);
    assert(s[a] == 32 && s[a + 1] == orientation_byte(robot.facing) && s[a + 2] == 10);
    assert(s.subrange(a + 3, a + 3 + commands.len() as int) =~= fc) by {
        assert forall|k: int| 0 <= k < fc.len() implies s.subrange(
            a + 3,
            a + 3 + commands.len() as int,
        )[k] == fc[k] by {
            assert(s[a + 3 + k] == record[fp.len() as int + 3 + k]);
        }
    }
    assert(s[a + 3 + commands.len()] == record[fp.len() as int + 3 + commands.len() as int]);
    assert(s[a + 3 + commands.len()] == 10);
    lemma_parse_point_at(s, i, robot.position);
    assert(!is_ws(s[a + 1]));
    lemma_ws_run_scan(s, a, a + 1);
    assert(spec_parse_orientation(s, a + 1) == Some((robot.facing, a + 2)));
    assert(is_command(s[a + 3])) by {
        assert(s[a + 3] == fc[0]);
    }
    lemma_ws_run_scan(s, a + 2, a + 3);
    lemma_parse_commands_at(s, a + 3, commands);
}

/// Whether a batch of records can be rendered as plan text: every position
/// nonnegative and every command run nonempty.
pub open spec fn records_wf(records: Seq<(Robot, Seq<Command>)>) -> bool {
    forall|k: int|
        0 <= k < records.len() ==> (#[trigger] records[k]).0.position.x >= 0
            && records[k].0.position.y >= 0 && records[k].1.len() >= 1
}

/// A rendered batch of records, filling the input from `skip_ws(s, i)` to
/// the end, parses back to exactly that batch.
pub proof fn lemma_parse_records_at(s: Seq<u8>, i: int, records: Seq<(Robot, Seq<Command>)>)
    requires
        0 <= i <= s.len(),
        records_wf(records),
        s.subrange(skip_ws(s, i), s.len() as int) == spec_fmt_records(records),
    ensures
        spec_parse_records(s, i) == Some(records),
    decreases records.len(),
{
    lemma_skip_ws_bounds(s, i);
    let j = skip_ws(s, i);
    if records.len() == 0 {
        assert(spec_fmt_records(records).len() == 0);
        assert(s.subrange(j, s.len() as int).len() == s.len() - j);
        assert(s.len() - j == 0);
    } else {
        let rec0 = records[0];
        let rest = records.drop_first();
        let f0 = spec_fmt_robot_record(rec0.0, rec0.1);
        let fr = spec_fmt_records(records);
        assert(rec0.0.position.x >= 0 && rec0.0.position.y >= 0 && rec0.1.len() >= 1);
        assert(fr == f0 + spec_fmt_records(rest));
        assert(s.len() - j == fr.len());
        assert(s.subrange(j, j + f0.len() as int) =~= f0) by {
            assert forall|k: int| 0 <= k < f0.len() implies s.subrange(j, j + f0.len() as int)[k]
                == f0[k] by {
                assert(s[j + k] == fr[k]);
            }
        }
        lemma_parse_robot_at(s, j, rec0.0, rec0.1);
        let e = j + f0.len() as int - 1;
        assert(s[e] == 10);
        assert(j < s.len());
        if rest.len() == 0 {
            assert(spec_fmt_records(rest) =~= Seq::<u8>::empty());
            assert(e + 1 == s.len());
            lemma_ws_run_scan(s, e, e + 1);
        } else {
            let rec1 = rest[0];
            assert(records[1] == rec1);
            assert(rec1.0.position.x >= 0);
            let f1 = spec_fmt_robot_record(rec1.0, rec1.1);
            let fx1 = spec_fmt_nat(rec1.0.position.x as nat);
            lemma_fmt_nat_digits(rec1.0.position.x as nat);
            assert(spec_fmt_records(rest) == f1 + spec_fmt_records(rest.drop_first()));
            assert(f1 == spec_fmt_robot(rec1.0) + seq![10u8] + spec_fmt_commands(rec1.1)
                + seq![10u8]);
            assert(spec_fmt_robot(rec1.0) == spec_fmt_point(rec1.0.position) + seq![32u8]
                + seq![orientation_byte(rec1.0.facing)]);
            assert(spec_fmt_point(rec1.0.position) == fx1 + seq![32u8] + spec_fmt_nat(
                rec1.0.position.y as nat,
            ));
            assert(s[e + 1] == fr[f0.len() as int]);
            assert(fr[f0.len() as int] == spec_fmt_records(rest)[0]);
            assert(spec_fmt_records(rest)[0] == fx1[0]);
            assert(is_digit(s[e + 1]));
            lemma_ws_run_scan(s, e, e + 1);
        }
        assert(skip_ws(s, e) == e + 1);
        assert(s.subrange(e + 1, s.len() as int) =~= spec_fmt_records(rest)) by {
            assert forall|k: int| 0 <= k < s.len() - (e + 1) implies s.subrange(
                e + 1,
                s.len() as int,
            )[k] == spec_fmt_records(rest)[k] by {
                assert(s[e + 1 + k] == fr[f0.len() as int + k]);
            }
        }
        assert(records_wf(rest)) by {
            assert forall|k: int| 0 <= k < rest.len() implies (#[trigger] rest[k]).0.position.x
                >= 0 && rest[k].0.position.y >= 0 && rest[k].1.len() >= 1 by {
                assert(rest[k] == records[k + 1]);
            }
        }
        lemma_parse_records_at(s, e, rest);
        assert(seq![rec0] + rest =~= records);
    }
}

/// Round trip of a whole plan: rendering a grid bound and a batch of records
/// to text and parsing the text back yields exactly the same grid bound and
/// records. Holds for every batch whose text exists: nonnegative positions
/// and at least one command per robot.
pub proof fn lemma_plan_round_trip(upper_right: Point, records: Seq<(Robot, Seq<Command>)>)
    requires
        upper_right.x >= 0,
        upper_right.y >= 0,
        records_wf(records),
    ensures
        spec_parse_plan(spec_fmt_plan(upper_right, records)) == Some((upper_right, records)),
{
    let s = spec_fmt_plan(upper_right, records);
    let fp = spec_fmt_point(upper_right);
    let fr = spec_fmt_records(records);
    let fx = spec_fmt_nat(upper_right.x as nat);
    assert(s == fp + seq![10u8] + fr);
    assert(fp == fx + seq![32u8] + spec_fmt_nat(upper_right.y as nat));
    lemma_fmt_nat_digits(upper_right.x as nat);
    assert(s[0] == fx[0]);
    assert(is_digit(s[0]) && !is_ws(s[0]));
    lemma_ws_run_scan(s, 0, 0);
    let e = fp.len() as int;
    assert(s.subrange(0, e) =~= fp) by {
        assert forall|k: int| 0 <= k < fp.len() implies s.subrange(0, e)[k] == fp[k] by {
            assert(s[k] == fp[k]);
        }
    }
    assert(s[e] == 10);
    lemma_parse_point_at(s, 0, upper_right);
    if records.len() == 0 {
        assert(fr =~= Seq::<u8>::empty());
        assert(e + 1 == s.len());
        lemma_ws_run_scan(s, e, e + 1);
    } else {
        let rec0 = records[0];
        assert(rec0.0.position.x >= 0);
        let fx0 = spec_fmt_nat(rec0.0.position.x as nat);
        lemma_fmt_nat_digits(rec0.0.position.x as nat);
        assert(fr == spec_fmt_robot_record(rec0.0, rec0.1) + spec_fmt_records(
            records.drop_first(),
        ));
        assert(spec_fmt_robot_record(rec0.0, rec0.1) == spec_fmt_robot(rec0.0) + seq![10u8]
            + spec_fmt_commands(rec0.1) + seq![10u8]);
        assert(spec_fmt_robot(rec0.0) == spec_fmt_point(rec0.0.position) + seq![32u8]
            + seq![orientation_byte(rec0.0.facing)]);
        assert(spec_fmt_point(rec0.0.position) == fx0 + seq![32u8] + spec_fmt_nat(
            rec0.0.position.y as nat,
        ));
        assert(s[e + 1] == fr[0]);
        assert(fr[0] == fx0[0]);
        assert(is_digit(s[e + 1]));
        lemma_ws_run_scan(s, e, e + 1);
    }
    assert(skip_ws(s, e) == e + 1);
    assert(s.subrange(e + 1, s.len() as int) =~= fr) by {
        assert forall|k: int| 0 <= k < s.len() - (e + 1) implies s.subrange(
            e + 1,
            s.len() as int,
        )[k] == fr[k] by {
            assert(s[e + 1 + k] == fr[k]);
        }
    }
    lemma_parse_records_at(s, e, records);
}

} // verus!

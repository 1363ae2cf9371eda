//! Streaming parser for the plan and outcome text formats: a pull-based
//! cursor over bytes that yields one record per request and stops for good
//! at the first malformed record.
//!
//! The grammar is line-tolerant: tokens are separated by runs of ASCII
//! whitespace. A plan is a grid-size point followed by robot records (point,
//! orientation, run of command letters); an outcome record is a point and an
//! orientation, optionally followed by the word `LOST`.

use vstd::prelude::*;
use crate::geo::location::Point;
use crate::geo::orientation::Orientation;
use crate::mission::Outcome;
use crate::robot::{Command, Robot};

verus! {

/// ASCII whitespace: space, tab, line feed, form feed, carriage return.
pub open spec fn is_ws(b: u8) -> bool {
    b == 32 || b == 9 || b == 10 || b == 12 || b == 13
}

/// ASCII decimal digit.
pub open spec fn is_digit(b: u8) -> bool {
    48 <= b <= 57
}

/// ASCII command letter: `L`, `R` or `F`.
pub open spec fn is_command(b: u8) -> bool {
    b == 76 || b == 82 || b == 70
}

/// The index of the first non-whitespace byte at or after `i` (or the end of
/// the input).
pub open spec fn skip_ws(s: Seq<u8>, i: int) -> int
    decreases s.len() - i,
{
    if 0 <= i < s.len() && is_ws(s[i]) {
        skip_ws(s, i + 1)
    } else {
        i
    }
}

/// The index just past the run of decimal digits starting at `i`.
pub open spec fn digit_run_end(s: Seq<u8>, i: int) -> int
    decreases s.len() - i,
{
    if 0 <= i < s.len() && is_digit(s[i]) {
        digit_run_end(s, i + 1)
    } else {
        i
    }
}

/// The index just past the run of command letters starting at `i`.
pub open spec fn command_run_end(s: Seq<u8>, i: int) -> int
    decreases s.len() - i,
{
    if 0 <= i < s.len() && is_command(s[i]) {
        command_run_end(s, i + 1)
    } else {
        i
    }
}

/// The number written by a sequence of decimal digit bytes, most significant
/// first.
pub open spec fn digits_val(ds: Seq<u8>) -> int
    decreases ds.len(),
{
    if ds.len() == 0 {
        0
    } else {
        digits_val(ds.drop_last()) * 10 + (ds.last() - 48)
    }
}

/// The command a letter stands for: `L`, `R`, else `F`.
pub open spec fn command_of(b: u8) -> Command {
    if b == 76 {
        Command::Left
    } else if b == 82 {
        Command::Right
    } else {
        Command::Forward
    }
}

/// The command sequence a run of command letters stands for, in order.
pub open spec fn commands_of(bs: Seq<u8>) -> Seq<Command>
    decreases bs.len(),
{
    if bs.len() == 0 {
        Seq::<Command>::empty()
    } else {
        commands_of(bs.drop_last()).push(command_of(bs.last()))
    }
}

/// One coordinate at `i`: a nonempty digit run whose value fits an `i32`.
/// Leading whitespace is not accepted; a value over `i32::MAX` is a parse
/// error, treated like a malformed number.
pub open spec fn spec_parse_coord(s: Seq<u8>, i: int) -> Option<(i32, int)> {
    let e = digit_run_end(s, i);
    if e == i {
        None
    } else {
        let v = digits_val(s.subrange(i, e));
        if v > i32::MAX {
            None
        } else {
            Some((v as i32, e))
        }
    }
}

/// A point at `i`: two coordinates separated by optional whitespace.
pub open spec fn spec_parse_point(s: Seq<u8>, i: int) -> Option<(Point, int)> {
    match spec_parse_coord(s, i) {
        None => None,
        Some((x, e1)) => {
            let j = skip_ws(s, e1);
            match spec_parse_coord(s, j) {
                None => None,
                Some((y, e2)) => Some((Point { x, y }, e2)),
            }
        },
    }
}

/// An orientation at `i`: one of the letters `N`, `E`, `S`, `W`.
pub open spec fn spec_parse_orientation(s: Seq<u8>, i: int) -> Option<(Orientation, int)> {
    if 0 <= i < s.len() {
        if s[i] == 78 {
            Some((Orientation::North, i + 1))
        } else if s[i] == 69 {
            Some((Orientation::East, i + 1))
        } else if s[i] == 83 {
            Some((Orientation::South, i + 1))
        } else if s[i] == 87 {
            Some((Orientation::West, i + 1))
        } else {
            None
        }
    } else {
        None
    }
}

/// A command run at `i`: one or more contiguous command letters, with no
/// separators.
pub open spec fn spec_parse_commands(s: Seq<u8>, i: int) -> Option<(Seq<Command>, int)> {
    let e = command_run_end(s, i);
    if e == i {
        None
    } else {
        Some((commands_of(s.subrange(i, e)), e))
    }
}

/// A robot record at `i`: a point, whitespace, an orientation, whitespace,
/// and a run of commands. The separating whitespace runs must be nonempty.
pub open spec fn spec_parse_robot(s: Seq<u8>, i: int) -> Option<((Robot, Seq<Command>), int)> {
    match spec_parse_point(s, i) {
        None => None,
        Some((position, e1)) => {
            let j = skip_ws(s, e1);
            if j == e1 {
                None
            } else {
                match spec_parse_orientation(s, j) {
                    None => None,
                    Some((facing, e2)) => {
                        let k = skip_ws(s, e2);
                        if k == e2 {
                            None
                        } else {
                            match spec_parse_commands(s, k) {
                                None => None,
                                Some((commands, e3)) => Some(
                                    ((Robot { position, facing }, commands), e3),
                                ),
                            }
                        }
                    },
                }
            }
        },
    }
}

/// An outcome record at `i`: a point, whitespace, an orientation, and
/// optionally — after further whitespace — the word `LOST`. A record whose
/// next word starts with `L` but is not exactly `LOST` is malformed.
pub open spec fn spec_parse_outcome(s: Seq<u8>, i: int) -> Option<(Outcome, int)> {
    match spec_parse_point(s, i) {
        None => None,
        Some((position, e1)) => {
            let j = skip_ws(s, e1);
            if j == e1 {
                None
            } else {
                match spec_parse_orientation(s, j) {
                    None => None,
                    Some((facing, e2)) => {
                        let robot = Robot { position, facing };
                        let w = skip_ws(s, e2);
                        if w < s.len() && s[w] == 76 {
                            if w + 4 <= s.len() && s[w + 1] == 79 && s[w + 2] == 83 && s[w + 3]
                                == 84 {
                                Some((Outcome::Lost(robot), w + 4))
                            } else {
                                None
                            }
                        } else {
                            Some((Outcome::Success(robot), e2))
                        }
                    },
                }
            }
        },
    }
}

/// All robot records from position `i` to the end of the input, or nothing
/// if any record on the way is malformed. This is the stream `MissionPlan`
/// yields, written as one function.
pub open spec fn spec_parse_records(s: Seq<u8>, i: int) -> Option<Seq<(Robot, Seq<Command>)>>
    decreases s.len() - i,
{
    let j = skip_ws(s, i);
    if j == s.len() {
        Some(Seq::<(Robot, Seq<Command>)>::empty())
    } else {
        match spec_parse_robot(s, j) {
            None => None,
            Some((record, e)) => {
                if i < e <= s.len() {
                    match spec_parse_records(s, e) {
                        None => None,
                        Some(rest) => Some(seq![record] + rest),
                    }
                } else {
                    None
                }
            },
        }
    }
}

/// A whole plan: the grid-size point after optional leading whitespace, then
/// every robot record to the end of the input.
pub open spec fn spec_parse_plan(s: Seq<u8>) -> Option<(Point, Seq<(Robot, Seq<Command>)>)> {
    match spec_parse_point(s, skip_ws(s, 0)) {
        None => None,
        Some((upper_right, e)) => match spec_parse_records(s, e) {
            None => None,
            Some(records) => Some((upper_right, records)),
        },
    }
}

/// Whitespace skipping stays within the input and moves only forward.
pub proof fn lemma_skip_ws_bounds(s: Seq<u8>, i: int)
    requires
        0 <= i <= s.len(),
    ensures
        i <= skip_ws(s, i) <= s.len(),
    decreases s.len() - i,
{
    if i < s.len() && is_ws(s[i]) {
        lemma_skip_ws_bounds(s, i + 1);
    }
}

/// A whitespace run ends exactly at the first byte that is not whitespace
/// (or at the end of the input).
pub proof fn lemma_ws_run_scan(s: Seq<u8>, i: int, e: int)
    requires
        0 <= i <= e <= s.len(),
        forall|m: int| i <= m < e ==> is_ws(s[m]),
        e == s.len() || !is_ws(s[e]),
    ensures
        skip_ws(s, i) == e,
    decreases e - i,
{
    if i < e {
        lemma_ws_run_scan(s, i + 1, e);
    }
}

/// A digit run ends exactly at the first byte that is not a digit (or at
/// the end of the input).
pub proof fn lemma_digit_run_scan(s: Seq<u8>, i: int, e: int)
    requires
        0 <= i <= e <= s.len(),
        forall|m: int| i <= m < e ==> is_digit(s[m]),
        e == s.len() || !is_digit(s[e]),
    ensures
        digit_run_end(s, i) == e,
    decreases e - i,
{
    if i < e {
        lemma_digit_run_scan(s, i + 1, e);
    }
}

/// A command-letter run ends exactly at the first byte that is not a
/// command letter (or at the end of the input).
pub proof fn lemma_command_run_scan(s: Seq<u8>, i: int, e: int)
    requires
        0 <= i <= e <= s.len(),
        forall|m: int| i <= m < e ==> is_command(s[m]),
        e == s.len() || !is_command(s[e]),
    ensures
        command_run_end(s, i) == e,
    decreases e - i,
{
    if i < e {
        lemma_command_run_scan(s, i + 1, e);
    }
}

/// A digit run stays within the input and moves only forward.
pub proof fn lemma_digit_run_bounds(s: Seq<u8>, i: int)
    requires
        0 <= i <= s.len(),
    ensures
        i <= digit_run_end(s, i) <= s.len(),
    decreases s.len() - i,
{
    if i < s.len() && is_digit(s[i]) {
        lemma_digit_run_bounds(s, i + 1);
    }
}

/// A command run stays within the input and moves only forward.
pub proof fn lemma_command_run_bounds(s: Seq<u8>, i: int)
    requires
        0 <= i <= s.len(),
    ensures
        i <= command_run_end(s, i) <= s.len(),
    decreases s.len() - i,
{
    if i < s.len() && is_command(s[i]) {
        lemma_command_run_bounds(s, i + 1);
    }
}

/// Two inputs that agree on every byte before `b`.
pub open spec fn agree_up_to(s: Seq<u8>, t: Seq<u8>, b: int) -> bool {
    b <= s.len() && b <= t.len() && (forall|m: int| 0 <= m < b ==> s[m] == t[m])
}

/// Skipping whitespace that ends before `b` reads no byte at or past `b`.
proof fn lemma_skip_ws_agree(s: Seq<u8>, t: Seq<u8>, i: int, b: int)
    requires
        agree_up_to(s, t, b),
        0 <= i <= s.len(),
        skip_ws(s, i) < b,
    ensures
        skip_ws(t, i) == skip_ws(s, i),
    decreases b - i,
{
    lemma_skip_ws_bounds(s, i);
    if i < s.len() && is_ws(s[i]) {
        lemma_skip_ws_agree(s, t, i + 1, b);
    }
}

/// A digit run that ends before `b` reads no byte at or past `b`.
proof fn lemma_digit_run_agree(s: Seq<u8>, t: Seq<u8>, i: int, b: int)
    requires
        agree_up_to(s, t, b),
        0 <= i <= s.len(),
        digit_run_end(s, i) < b,
    ensures
        digit_run_end(t, i) == digit_run_end(s, i),
    decreases b - i,
{
    lemma_digit_run_bounds(s, i);
    if i < s.len() && is_digit(s[i]) {
        lemma_digit_run_agree(s, t, i + 1, b);
    }
}

/// A command run that ends before `b` reads no byte at or past `b`.
proof fn lemma_command_run_agree(s: Seq<u8>, t: Seq<u8>, i: int, b: int)
    requires
        agree_up_to(s, t, b),
        0 <= i <= s.len(),
        command_run_end(s, i) < b,
    ensures
        command_run_end(t, i) == command_run_end(s, i),
    decreases b - i,
{
    lemma_command_run_bounds(s, i);
    if i < s.len() && is_command(s[i]) {
        lemma_command_run_agree(s, t, i + 1, b);
    }
}

/// A coordinate whose parse ends before `b` parses the same on any input
/// that agrees before `b`.
proof fn lemma_parse_coord_agree(s: Seq<u8>, t: Seq<u8>, i: int, b: int)
    requires
        agree_up_to(s, t, b),
        0 <= i <= s.len(),
        spec_parse_coord(s, i) is Some,
        spec_parse_coord(s, i)->Some_0.1 < b,
    ensures
        spec_parse_coord(t, i) == spec_parse_coord(s, i),
{
    let e = digit_run_end(s, i);
    lemma_digit_run_bounds(s, i);
    lemma_digit_run_agree(s, t, i, b);
    assert(s.subrange(i, e) =~= t.subrange(i, e));
}

/// A point whose parse ends before `b` parses the same on any input that
/// agrees before `b`.
proof fn lemma_parse_point_agree(s: Seq<u8>, t: Seq<u8>, i: int, b: int)
    requires
        agree_up_to(s, t, b),
        0 <= i <= s.len(),
        spec_parse_point(s, i) is Some,
        spec_parse_point(s, i)->Some_0.1 < b,
    ensures
        spec_parse_point(t, i) == spec_parse_point(s, i),
{
    let e1 = spec_parse_coord(s, i)->Some_0.1;
    let j = skip_ws(s, e1);
    let e = spec_parse_coord(s, j)->Some_0.1;
    lemma_digit_run_bounds(s, i);
    lemma_skip_ws_bounds(s, e1);
    lemma_digit_run_bounds(s, j);
    assert(i < e1 <= j < e < b);
    lemma_parse_coord_agree(s, t, i, b);
    lemma_skip_ws_agree(s, t, e1, b);
    lemma_parse_coord_agree(s, t, j, b);
}

/// The streaming-laziness law: a robot record whose parse ends before `b`
/// parses the same on any input that agrees with this one on the bytes
/// before `b`. So the record a cursor yields never depends on the bytes
/// beyond the record itself — later records may hold anything, including
/// malformed text, without affecting the records before them.
pub proof fn lemma_parse_robot_depends_on_prefix(s: Seq<u8>, t: Seq<u8>, i: int, b: int)
    requires
        agree_up_to(s, t, b),
        0 <= i <= s.len(),
        spec_parse_robot(s, i) is Some,
        spec_parse_robot(s, i)->Some_0.1 < b,
    ensures
        spec_parse_robot(t, i) == spec_parse_robot(s, i),
{
    let e1 = spec_parse_point(s, i)->Some_0.1;
    let j = skip_ws(s, e1);
    let e2 = j + 1;
    let k = skip_ws(s, e2);
    let e = command_run_end(s, k);
    lemma_skip_ws_bounds(s, e1);
    lemma_skip_ws_bounds(s, e2);
    lemma_command_run_bounds(s, k);
    assert(i < e1 <= j < e2 <= k < e < b) by {
        lemma_digit_run_bounds(s, i);
        lemma_skip_ws_bounds(s, spec_parse_coord(s, i)->Some_0.1);
        lemma_digit_run_bounds(s, skip_ws(s, spec_parse_coord(s, i)->Some_0.1));
    }
    lemma_parse_point_agree(s, t, i, b);
    lemma_skip_ws_agree(s, t, e1, b);
    lemma_skip_ws_agree(s, t, e2, b);
    lemma_command_run_agree(s, t, k, b);
    assert(s.subrange(k, e) =~= t.subrange(k, e));
}

/// Find the first non-whitespace byte at or after `i`.
fn ws_end(s: &Vec<u8>, i: usize) -> (r: usize)
    requires
        i <= s@.len(),
    ensures
        r == skip_ws(s@, i as int),
        i <= r <= s@.len(),
{
    let mut j = i;
    while j < s.len() && (s[j] == 32 || s[j] == 9 || s[j] == 10 || s[j] == 12 || s[j] == 13)
        invariant
            i <= j <= s@.len(),
            skip_ws(s@, i as int) == skip_ws(s@, j as int),
        decreases s@.len() - j,
    {
        j = j + 1;
    }
    j
}

/// Find the end of the digit run starting at `i`.
fn digit_end(s: &Vec<u8>, i: usize) -> (r: usize)
    requires
        i <= s@.len(),
    ensures
        r == digit_run_end(s@, i as int),
        i <= r <= s@.len(),
        forall|m: int| i <= m < r ==> is_digit(s@[m]),
{
    let mut j = i;
    while j < s.len() && 48 <= s[j] && s[j] <= 57
        invariant
            i <= j <= s@.len(),
            digit_run_end(s@, i as int) == digit_run_end(s@, j as int),
            forall|m: int| i <= m < j ==> is_digit(s@[m]),
        decreases s@.len() - j,
    {
        j = j + 1;
    }
    j
}

/// Find the end of the command-letter run starting at `i`.
fn command_end(s: &Vec<u8>, i: usize) -> (r: usize)
    requires
        i <= s@.len(),
    ensures
        r == command_run_end(s@, i as int),
        i <= r <= s@.len(),
        forall|m: int| i <= m < r ==> is_command(s@[m]),
{
    let mut j = i;
    while j < s.len() && (s[j] == 76 || s[j] == 82 || s[j] == 70)
        invariant
            i <= j <= s@.len(),
            command_run_end(s@, i as int) == command_run_end(s@, j as int),
            forall|m: int| i <= m < j ==> is_command(s@[m]),
        decreases s@.len() - j,
    {
        j = j + 1;
    }
    j
}

/// Parse one coordinate: a nonempty digit run converted to `i32`, with
/// overflow reported as a parse failure.
fn parse_coord(s: &Vec<u8>, i: usize) -> (r: Option<(i32, usize)>)
    requires
        i <= s@.len(),
    ensures
        r is Some <==> spec_parse_coord(s@, i as int) is Some,
        r matches Some((v, e)) ==> spec_parse_coord(s@, i as int) == Some((v, e as int)) && i < e
            <= s@.len(),
{
    let end = digit_end(s, i);
    if end == i {
        return None;
    }
    let mut acc: u64 = 0;
    let mut over = false;
    let mut j = i;
    assert(s@.subrange(i as int, i as int) =~= Seq::<u8>::empty());
    while j < end
        invariant
            i <= j <= end <= s@.len(),
            forall|m: int| i <= m < end ==> is_digit(s@[m]),
            !over ==> acc == digits_val(s@.subrange(i as int, j as int)) && acc <= 0x7fffffff,
            over ==> digits_val(s@.subrange(i as int, j as int)) > 0x7fffffff,
        decreases end - j,
    {
        let d = s[j];
        assert(s@.subrange(i as int, j as int + 1).drop_last() =~= s@.subrange(i as int, j as int)
            && s@.subrange(i as int, j as int + 1).last() == s@[j as int]);
        if !over {
            acc = acc * 10 + ((d - 48) as u64);
            if acc > 0x7fffffff {
                over = true;
            }
        } else {
            assert(digits_val(s@.subrange(i as int, j as int + 1)) == digits_val(
                s@.subrange(i as int, j as int),
            ) * 10 + (s@[j as int] - 48));
        }
        j = j + 1;
    }
    assert(s@.subrange(i as int, end as int) =~= s@.subrange(i as int, j as int));
    if over {
        None
    } else {
        Some((acc as i32, end))
    }
}

/// Parse a point: two coordinates separated by optional whitespace.
pub fn parse_point(s: &Vec<u8>, i: usize) -> (r: Option<(Point, usize)>)
    requires
        i <= s@.len(),
    ensures
        r is Some <==> spec_parse_point(s@, i as int) is Some,
        r matches Some((p, e)) ==> spec_parse_point(s@, i as int) == Some((p, e as int)) && i < e
            <= s@.len(),
{
    match parse_coord(s, i) {
        None => None,
        Some((x, e1)) => {
            let j = ws_end(s, e1);
            match parse_coord(s, j) {
                None => None,
                Some((y, e2)) => Some((Point { x, y }, e2)),
            }
        },
    }
}

/// Parse an orientation letter.
pub fn parse_orientation(s: &Vec<u8>, i: usize) -> (r: Option<(Orientation, usize)>)
    requires
        i <= s@.len(),
    ensures
        r is Some <==> spec_parse_orientation(s@, i as int) is Some,
        r matches Some((o, e)) ==> spec_parse_orientation(s@, i as int) == Some((o, e as int)) && i
            < e <= s@.len(),
{
    if i < s.len() {
        let b = s[i];
        if b == 78 {
            Some((Orientation::North, i + 1))
        } else if b == 69 {
            Some((Orientation::East, i + 1))
        } else if b == 83 {
            Some((Orientation::South, i + 1))
        } else if b == 87 {
            Some((Orientation::West, i + 1))
        } else {
            None
        }
    } else {
        None
    }
}

/// Parse a nonempty contiguous run of command letters.
pub fn parse_commands(s: &Vec<u8>, i: usize) -> (r: Option<(Vec<Command>, usize)>)
    requires
        i <= s@.len(),
    ensures
        r is Some <==> spec_parse_commands(s@, i as int) is Some,
        r matches Some((c, e)) ==> spec_parse_commands(s@, i as int) == Some((c@, e as int)) && i
            < e <= s@.len(),
{
    let end = command_end(s, i);
    if end == i {
        return None;
    }
    let mut out: Vec<Command> = Vec::new();
    let mut j = i;
    assert(s@.subrange(i as int, i as int) =~= Seq::<u8>::empty());
    while j < end
        invariant
            i <= j <= end <= s@.len(),
            out@ == commands_of(s@.subrange(i as int, j as int)),
        decreases end - j,
    {
        let b = s[j];
        assert(s@.subrange(i as int, j as int + 1).drop_last() =~= s@.subrange(i as int, j as int)
            && s@.subrange(i as int, j as int + 1).last() == s@[j as int]);
        if b == 76 {
            out.push(Command::Left);
        } else if b == 82 {
            out.push(Command::Right);
        } else {
            out.push(Command::Forward);
        }
        j = j + 1;
    }
    assert(s@.subrange(i as int, end as int) =~= s@.subrange(i as int, j as int));
    Some((out, end))
}

/// Parse one robot record: point, whitespace, orientation, whitespace,
/// commands.
pub fn parse_robot(s: &Vec<u8>, i: usize) -> (r: Option<(Robot, Vec<Command>, usize)>)
    requires
        i <= s@.len(),
    ensures
        r is Some <==> spec_parse_robot(s@, i as int) is Some,
        r matches Some((rb, c, e)) ==> spec_parse_robot(s@, i as int) == Some(
            ((rb, c@), e as int),
        ) && i < e <= s@.len(),
{
    match parse_point(s, i) {
        None => None,
        Some((position, e1)) => {
            let j = ws_end(s, e1);
            if j == e1 {
                None
            } else {
                match parse_orientation(s, j) {
                    None => None,
                    Some((facing, e2)) => {
                        let k = ws_end(s, e2);
                        if k == e2 {
                            None
                        } else {
                            match parse_commands(s, k) {
                                None => None,
                                Some((commands, e3)) => Some(
                                    (Robot { position, facing }, commands, e3),
                                ),
                            }
                        }
                    },
                }
            }
        },
    }
}

/// Parse one outcome record: point, whitespace, orientation, optional
/// `LOST`.
pub fn parse_outcome(s: &Vec<u8>, i: usize) -> (r: Option<(Outcome, usize)>)
    requires
        i <= s@.len(),
    ensures
        r is Some <==> spec_parse_outcome(s@, i as int) is Some,
        r matches Some((o, e)) ==> spec_parse_outcome(s@, i as int) == Some((o, e as int)) && i < e
            <= s@.len(),
{
    match parse_point(s, i) {
        None => None,
        Some((position, e1)) => {
            let j = ws_end(s, e1);
            if j == e1 {
                None
            } else {
                match parse_orientation(s, j) {
                    None => None,
                    Some((facing, e2)) => {
                        let robot = Robot { position, facing };
                        let w = ws_end(s, e2);
                        if w < s.len() && s[w] == 76 {
                            if s.len() - w >= 4 && s[w + 1] == 79 && s[w + 2] == 83 && s[w + 3]
                                == 84 {
                                Some((Outcome::Lost(robot), w + 4))
                            } else {
                                None
                            }
                        } else {
                            Some((Outcome::Success(robot), e2))
                        }
                    },
                }
            }
        },
    }
}

/// A lazy cursor over a plan text: the grid size, parsed eagerly by `read`,
/// and a position from which `next` parses one robot record per call. After
/// the first malformed record the cursor is dead and yields nothing more.
pub struct MissionPlan {
    pub upper_right: Point,
    pub input: Vec<u8>,
    pub pos: usize,
    pub failed: bool,
}

impl MissionPlan {
    /// The cursor position never runs past the input.
    pub open spec fn wf(self) -> bool {
        self.pos <= self.input@.len()
    }

    /// Read the leading grid-size point (after optional leading whitespace)
    /// and return a cursor for the robot records that follow. Fails exactly
    /// when no valid point starts the input.
    pub fn read(input: Vec<u8>) -> (r: Result<MissionPlan, String>)
        ensures
            ({
                let j = skip_ws(input@, 0);
                match r {
                    Ok(plan) => {
                        &&& spec_parse_point(input@, j) matches Some((p, e)) && plan.upper_right
                            == p && plan.pos == e
                        &&& plan.input@ == input@
                        &&& !plan.failed
                        &&& plan.wf()
                    },
                    Err(_) => spec_parse_point(input@, j) is None,
                }
            }),
    {
        let j = ws_end(&input, 0);
        match parse_point(&input, j) {
            Some((upper_right, e)) => Ok(
                MissionPlan { upper_right, input, pos: e, failed: false },
            ),
            None => Err(String::from_str("expected grid size")),
        }
    }

    /// Yield the next robot record, if any. Skips whitespace, then: at the
    /// end of the input, yields nothing (and stays there); on a valid record,
    /// yields it and moves past it; on anything else, yields one error and
    /// goes dead, so that every later call yields nothing.
    pub fn next(&mut self) -> (r: Option<Result<(Robot, Vec<Command>), String>>)
        requires
            old(self).wf(),
        ensures
            final(self).wf(),
            final(self).input@ == old(self).input@,
            final(self).upper_right == old(self).upper_right,
            old(self).failed ==> r is None && final(self).failed,
            !old(self).failed ==> ({
                let s = old(self).input@;
                let j = skip_ws(s, old(self).pos as int);
                if j == s.len() {
                    r is None && !final(self).failed && final(self).pos == j
                } else {
                    match spec_parse_robot(s, j) {
                        Some((record, e)) => {
                            &&& r matches Some(Ok(rec)) && rec.0 == record.0 && rec.1@ == record.1
                            &&& final(self).pos == e
                            &&& !final(self).failed
                        },
                        None => r matches Some(Err(_)) && final(self).failed,
                    }
                }
            }),
    {
        if self.failed {
            return None;
        }
        let j = ws_end(&self.input, self.pos);
        if j == self.input.len() {
            self.pos = j;
            return None;
        }
        match parse_robot(&self.input, j) {
            Some((robot, commands, e)) => {
                self.pos = e;
                Some(Ok((robot, commands)))
            },
            None => {
                self.failed = true;
                Some(Err(String::from_str("expected a robot record")))
            },
        }
    }
}

/// A lazy cursor over an outcome log: `next` parses one outcome record per
/// call, with the same stop-on-error contract as `MissionPlan`.
pub struct MissionOutcomes {
    pub input: Vec<u8>,
    pub pos: usize,
    pub failed: bool,
}

impl MissionOutcomes {
    /// The cursor position never runs past the input.
    pub open spec fn wf(self) -> bool {
        self.pos <= self.input@.len()
    }

    /// A cursor over an outcome log, starting at the beginning.
    pub fn read(input: Vec<u8>) -> (r: MissionOutcomes)
        ensures
            r.input@ == input@,
            r.pos == 0,
            !r.failed,
            r.wf(),
    {
        MissionOutcomes { input, pos: 0, failed: false }
    }

    /// Yield the next outcome record, if any: nothing at the end of the
    /// input, the record on success, and one error — after which the cursor
    /// is dead — on a malformed record.
    pub fn next(&mut self) -> (r: Option<Result<Outcome, String>>)
        requires
            old(self).wf(),
        ensures
            final(self).wf(),
            final(self).input@ == old(self).input@,
            old(self).failed ==> r is None && final(self).failed,
            !old(self).failed ==> ({
                let s = old(self).input@;
                let j = skip_ws(s, old(self).pos as int);
                if j == s.len() {
                    r is None && !final(self).failed && final(self).pos == j
                } else {
                    match spec_parse_outcome(s, j) {
                        Some((outcome, e)) => {
                            &&& r == Some(Result::<Outcome, String>::Ok(outcome))
                            &&& final(self).pos == e
                            &&& !final(self).failed
                        },
                        None => r matches Some(Err(_)) && final(self).failed,
                    }
                }
            }),
    {
        if self.failed {
            return None;
        }
        let j = ws_end(&self.input, self.pos);
        if j == self.input.len() {
            self.pos = j;
            return None;
        }
        match parse_outcome(&self.input, j) {
            Some((outcome, e)) => {
                self.pos = e;
                Some(Ok(outcome))
            },
            None => {
                self.failed = true;
                Some(Err(String::from_str("expected an outcome record")))
            },
        }
    }
}

} // verus!

//! The logger's computable parts: UTC timestamps, the line format, when the
//! active file rotates, and which renames a rotation performs.

use vstd::prelude::*;
use crate::fmt::{decimal, push_padded, zero_pad};
use crate::text::{chars_of, extend_chars, string_from_chars};

verus! {

/// Rotate once the active file would grow past this many bytes (5 MiB).
pub const MAX_BYTES: u64 = 5242880;

/// Rotated generations kept beside the active file.
pub const KEEP_GENERATIONS: usize = 3;

/// Handle returned by a successful logger initialisation.
pub struct Guard;

// ---------------------------------------------------------------------------
// The proleptic Gregorian calendar, counted from 1970-01-01.
// ---------------------------------------------------------------------------

pub open spec fn is_leap(y: int) -> bool {
    (y % 4 == 0 && y % 100 != 0) || y % 400 == 0
}

pub open spec fn year_len(y: int) -> nat {
    if is_leap(y) {
        366
    } else {
        365
    }
}

/// Days in month `m` (1 to 12) of year `y`.
pub open spec fn days_in_month(y: int, m: int) -> nat {
    if m == 2 {
        if is_leap(y) {
            29
        } else {
            28
        }
    } else if m == 4 || m == 6 || m == 9 || m == 11 {
        30
    } else {
        31
    }
}

/// Days from 1970-01-01 to the first day of year `1970 + n`.
pub open spec fn days_before_year(n: nat) -> nat
    decreases n,
{
    if n == 0 {
        0
    } else {
        days_before_year((n - 1) as nat) + year_len(1970 + n - 1)
    }
}

/// Days from the first of January of `y` to the first day of month `m`.
pub open spec fn days_before_month(y: int, m: nat) -> nat
    decreases m,
{
    if m <= 1 {
        0
    } else {
        days_before_month(y, (m - 1) as nat) + days_in_month(y, m - 1)
    }
}

/// `(y, m, d)` is the calendar date `days` days after 1970-01-01.
pub open spec fn is_civil_date(days: nat, y: int, m: int, d: int) -> bool {
    &&& y >= 1970
    &&& 1 <= m <= 12
    &&& 1 <= d <= days_in_month(y, m)
    &&& days_before_year((y - 1970) as nat) + days_before_month(y, m as nat) + d - 1 == days
}

/// The text `YYYY-MM-DD HH:MM:SS` for the given fields, each zero-padded
/// (the year to at least four digits).
pub open spec fn timestamp_text(y: nat, mo: nat, d: nat, h: nat, mi: nat, s: nat) -> Seq<char> {
    zero_pad(decimal(y), 4) + seq!['-'] + zero_pad(decimal(mo), 2) + seq!['-'] + zero_pad(
        decimal(d),
        2,
    ) + seq![' '] + zero_pad(decimal(h), 2) + seq![':'] + zero_pad(decimal(mi), 2) + seq![':']
        + zero_pad(decimal(s), 2)
}

/// `text` is the UTC timestamp of the instant `secs` seconds after the Unix
/// epoch.
pub open spec fn is_timestamp_of(secs: nat, text: Seq<char>) -> bool {
    let days = secs / 86400;
    let t = secs % 86400;
    exists|y: nat, m: nat, d: nat|
        #![trigger is_civil_date(days, y as int, m as int, d as int)]
        is_civil_date(days, y as int, m as int, d as int) && text == timestamp_text(
            y,
            m,
            d,
            t / 3600,
            (t % 3600) / 60,
            t % 60,
        )
}

/// Leap years among the years `1..=y` (for `y >= 0`).
spec fn leaps(y: int) -> int {
    y / 4 - y / 100 + y / 400
}

proof fn lemma_div_step(y: int, k: int)
    requires
        y >= 1,
        k == 4 || k == 100 || k == 400,
    ensures
        y / k - (y - 1) / k == (if y % k == 0 {
            1int
        } else {
            0int
        }),
{
    assert(y / k - (y - 1) / k == (if y % k == 0 {
        1int
    } else {
        0int
    })) by (nonlinear_arith)
        requires
            y >= 1,
            k >= 4,
    ;
}

proof fn lemma_leaps_step(y: int)
    requires
        y >= 1,
    ensures
        leaps(y) - leaps(y - 1) == (if is_leap(y) {
            1int
        } else {
            0int
        }),
{
    lemma_div_step(y, 4);
    lemma_div_step(y, 100);
    lemma_div_step(y, 400);
    assert(y % 100 == 0 ==> y % 4 == 0) by (nonlinear_arith);
    assert(y % 400 == 0 ==> y % 100 == 0) by (nonlinear_arith);
}

/// Closed form of the days before a year.
proof fn lemma_days_closed(n: nat)
    ensures
        days_before_year(n) == 365 * n + leaps(1969 + n as int) - leaps(1969),
    decreases n,
{
    if n > 0 {
        lemma_days_closed((n - 1) as nat);
        lemma_leaps_step(1969 + n as int);
    }
}

/// Any 400 consecutive years hold 146097 days.
proof fn lemma_cycle_shift(n: nat)
    ensures
        days_before_year(n + 400) == days_before_year(n) + 146097,
{
    lemma_days_closed(n);
    lemma_days_closed(n + 400);
    let y: int = 1969 + n as int;
    assert((y + 400) / 4 == y / 4 + 100) by (nonlinear_arith);
    assert((y + 400) / 100 == y / 100 + 4) by (nonlinear_arith);
    assert((y + 400) / 400 == y / 400 + 1) by (nonlinear_arith);
}

proof fn lemma_cycles(k: nat)
    ensures
        days_before_year(400 * k) == 146097 * k,
    decreases k,
{
    if k > 0 {
        lemma_cycles((k - 1) as nat);
        lemma_cycle_shift((400 * (k - 1)) as nat);
        assert(400 * k == 400 * (k - 1) + 400) by (nonlinear_arith);
        assert(146097 * k == 146097 * (k - 1) + 146097) by (nonlinear_arith);
    }
}

proof fn lemma_months_fill_year(y: int)
    ensures
        days_before_month(y, 13) == year_len(y),
{
    reveal_with_fuel(days_before_month, 13);
}

fn is_leap_year(y: u64) -> (r: bool)
    ensures
        r == is_leap(y as int),
{
    (y % 4 == 0 && y % 100 != 0) || y % 400 == 0
}

fn year_length(y: u64) -> (r: u64)
    ensures
        r == year_len(y as int),
{
    if is_leap_year(y) {
        366
    } else {
        365
    }
}

fn month_length(y: u64, m: u64) -> (r: u64)
    ensures
        r == days_in_month(y as int, m as int),
{
    if m == 2 {
        if is_leap_year(y) {
            29
        } else {
            28
        }
    } else if m == 4 || m == 6 || m == 9 || m == 11 {
        30
    } else {
        31
    }
}

/// The calendar date `days` days after 1970-01-01.
pub fn civil_from_days(days: u64) -> (r: (u64, u64, u64))
    ensures
        is_civil_date(days as nat, r.0 as int, r.1 as int, r.2 as int),
{
    let cycles = days / 146097;
    let mut rem = days % 146097;
    let mut n: u64 = 400 * cycles;
    proof {
        lemma_cycles(cycles as nat);
        assert(days == 146097 * cycles + rem) by (nonlinear_arith)
            requires
                cycles == days / 146097,
                rem == days % 146097,
        ;
    }
    let ghost base = n;
    proof {
        lemma_cycle_shift(base as nat);
    }
    while rem >= year_length(1970 + n)
        invariant
            base <= n <= base + 400,
            base == 400 * cycles,
            cycles <= u64::MAX / 146097,
            days_before_year(n as nat) + rem == days,
            days_before_year(base as nat) + 146097 == days_before_year((base + 400) as nat),
            days_before_year(n as nat) + rem < days_before_year((base + 400) as nat),
        decreases days_before_year((base + 400) as nat) - days_before_year(n as nat),
    {
        let len = year_length(1970 + n);
        proof {
            assert(days_before_year((n + 1) as nat) == days_before_year(n as nat) + len);
            if n + 1 > base + 400 {
                assert(n == base + 400);
            }
            lemma_monotone_years((n + 1) as nat, (base + 400) as nat);
        }
        rem = rem - len;
        n = n + 1;
    }
    let y = 1970 + n;
    proof {
        assert(days_before_year((n + 1) as nat) == days_before_year(n as nat) + year_len(
            y as int,
        ));
        lemma_months_fill_year(y as int);
    }
    let mut m: u64 = 1;
    while rem >= month_length(y, m)
        invariant
            1 <= m <= 12,
            rem < days_before_month(y as int, 13) - days_before_month(y as int, m as nat),
            days_before_year(n as nat) + days_before_month(y as int, m as nat) + rem == days,
            y == 1970 + n,
        decreases 13 - m,
    {
        let len = month_length(y, m);
        proof {
            assert(days_before_month(y as int, (m + 1) as nat) == days_before_month(
                y as int,
                m as nat,
            ) + len);
            if m == 12 {
                assert(days_before_month(y as int, 13) - days_before_month(y as int, 12) == len);
            }
        }
        rem = rem - len;
        m = m + 1;
    }
    (y, m, rem + 1)
}

proof fn lemma_monotone_years(a: nat, b: nat)
    requires
        a <= b,
    ensures
        days_before_year(a) <= days_before_year(b),
    decreases b - a,
{
    if a < b {
        lemma_monotone_years(a, (b - 1) as nat);
    }
}

/// The UTC timestamp `YYYY-MM-DD HH:MM:SS` of the instant `secs` seconds
/// after the Unix epoch.
pub fn format_timestamp(secs: u64) -> (r: String)
    ensures
        is_timestamp_of(secs as nat, r@),
{
    let days = secs / 86400;
    let t = secs % 86400;
    let (y, mo, d) = civil_from_days(days);
    let mut out: Vec<char> = Vec::new();
    push_padded(&mut out, y, 4);
    out.push('-');
    push_padded(&mut out, mo, 2);
    out.push('-');
    push_padded(&mut out, d, 2);
    out.push(' ');
    push_padded(&mut out, t / 3600, 2);
    out.push(':');
    push_padded(&mut out, (t % 3600) / 60, 2);
    out.push(':');
    push_padded(&mut out, t % 60, 2);
    proof {
        let text = timestamp_text(
            y as nat,
            mo as nat,
            d as nat,
            (t / 3600) as nat,
            ((t % 3600) / 60) as nat,
            (t % 60) as nat,
        );
        assert(out@ =~= text);
        assert(is_civil_date(days as nat, y as int, mo as int, d as int));
    }
    string_from_chars(out)
}

/// The time elapsed since the Unix epoch (`SystemTime::elapsed` on
/// `UNIX_EPOCH`), or `None` when the clock reads earlier than the epoch.
/// Nothing is promised of the value: it is the machine's clock.
#[verifier::external_body]
fn time_since_epoch() -> Option<std::time::Duration> {
    std::time::UNIX_EPOCH.elapsed().ok()
}

/// The whole seconds of `d` (`Duration::as_secs`). The duration comes from
/// the clock, so nothing is stated of the result.
#[verifier::external_body]
fn whole_seconds(d: &std::time::Duration) -> u64 {
    d.as_secs()
}

/// The current UTC time as `YYYY-MM-DD HH:MM:SS` (the epoch itself when the
/// clock reads earlier than 1970).
pub fn current_timestamp() -> (r: String)
    ensures
        exists|secs: nat| #[trigger] is_timestamp_of(secs, r@),
{
    let secs = match time_since_epoch() {
        Some(d) => whole_seconds(&d),
        None => 0,
    };
    let r = format_timestamp(secs);
    proof {
        assert(is_timestamp_of(secs as nat, r@));
    }
    r
}

/// The text of one log line: `[ts] [level] [target] message` and a newline.
pub open spec fn log_line(ts: Seq<char>, level: Seq<char>, target: Seq<char>, message: Seq<char>) -> Seq<char> {
    seq!['['] + ts + seq![']', ' ', '['] + level + seq![']', ' ', '['] + target + seq![']', ' ']
        + message + seq!['\n']
}

/// Renders one log line.
pub fn format_log_line(ts: &str, level: &str, target: &str, message: &str) -> (r: String)
    ensures
        r@ == log_line(ts@, level@, target@, message@),
{
    let mut out: Vec<char> = Vec::new();
    out.push('[');
    extend_chars(&mut out, &chars_of(ts));
    out.push(']');
    out.push(' ');
    out.push('[');
    extend_chars(&mut out, &chars_of(level));
    out.push(']');
    out.push(' ');
    out.push('[');
    extend_chars(&mut out, &chars_of(target));
    out.push(']');
    out.push(' ');
    extend_chars(&mut out, &chars_of(message));
    out.push('\n');
    proof {
        assert(out@ =~= log_line(ts@, level@, target@, message@));
    }
    string_from_chars(out)
}

// ---------------------------------------------------------------------------
// Size-based rotation.
// ---------------------------------------------------------------------------

/// Writing `len` more bytes to an active file of `bytes` bytes rotates it
/// first.
pub open spec fn rotates(bytes: nat, len: nat) -> bool {
    bytes + len > MAX_BYTES
}

/// Size of the active file after writing `len` bytes to one of `bytes`.
pub open spec fn size_after(bytes: nat, len: nat) -> nat {
    if rotates(bytes, len) {
        len
    } else {
        bytes + len
    }
}

/// Whether writing `len` bytes to an active file of `bytes` bytes must
/// rotate it first.
pub fn should_rotate(bytes: u64, len: u64) -> (r: bool)
    requires
        bytes + len <= u64::MAX,
    ensures
        r == rotates(bytes as nat, len as nat),
{
    bytes + len > MAX_BYTES
}

/// The active file's size once `len` bytes were written to one of `bytes`
/// bytes (rotating first when needed).
pub fn size_after_write(bytes: u64, len: u64) -> (r: u64)
    requires
        bytes + len <= u64::MAX,
    ensures
        r == size_after(bytes as nat, len as nat),
{
    if should_rotate(bytes, len) {
        len
    } else {
        bytes + len
    }
}

/// Whatever the active file held before, after one write it is no larger
/// than the rotation threshold, unless that single line alone is larger
/// (in which case the file holds just that line).
pub proof fn law_active_file_bounded(bytes: nat, len: nat)
    ensures
        size_after(bytes, len) <= MAX_BYTES || size_after(bytes, len) == len,
        rotates(bytes, len) ==> size_after(bytes, len) == len,
{
}

/// A file operation of a rotation.
#[derive(Debug, Clone, PartialEq, Eq)]
pub enum RotationStep {
    /// Delete the named file (missing is fine).
    Remove(String),
    /// Rename `from` to `to`, replacing `to` (a missing `from` is skipped).
    Rename { from: String, to: String },
}

/// Name of the active log file.
pub open spec fn active_name() -> Seq<char> {
    seq!['m', 'i', 'm', 'i', 'r', '.', 'l', 'o', 'g']
}

/// Name of rotated generation `n` (1 is the most recent).
pub open spec fn generation_name(n: nat) -> Seq<char> {
    active_name() + seq!['.'] + decimal(n) + seq!['.', 'o', 'l', 'd']
}

pub open spec fn step_is(s: RotationStep, spec_step: (bool, Seq<char>, Seq<char>)) -> bool {
    match s {
        RotationStep::Remove(name) => spec_step.0 && name@ == spec_step.1,
        RotationStep::Rename { from, to } => !spec_step.0 && from@ == spec_step.1 && to@
            == spec_step.2,
    }
}

/// The steps of a rotation, each as `(is_remove, name, target)`: drop the
/// oldest kept generation, shift every other one a place older, and make
/// the active file generation 1.
pub open spec fn rotation_plan() -> Seq<(bool, Seq<char>, Seq<char>)> {
    seq![
        (true, generation_name(3), Seq::<char>::empty()),
        (false, generation_name(2), generation_name(3)),
        (false, generation_name(1), generation_name(2)),
        (false, active_name(), generation_name(1)),
    ]
}

fn generation(n: u64) -> (r: String)
    ensures
        r@ == generation_name(n as nat),
{
    let mut out = chars_of("mimir.log.");
    proof {
        reveal_strlit("mimir.log.");
    }
    crate::fmt::push_decimal(&mut out, n);
    out.push('.');
    out.push('o');
    out.push('l');
    out.push('d');
    proof {
        assert(out@ =~= generation_name(n as nat));
    }
    string_from_chars(out)
}

/// The file operations of one rotation, in the order they run.
pub fn rotation_steps() -> (r: Vec<RotationStep>)
    ensures
        r@.len() == rotation_plan().len(),
        forall|i: int| 0 <= i < r@.len() ==> step_is(#[trigger] r@[i], rotation_plan()[i]),
{
    let mut r: Vec<RotationStep> = Vec::new();
    let mut n: usize = KEEP_GENERATIONS;
    while n >= 1
        invariant
            0 <= n <= KEEP_GENERATIONS,
            r@.len() == KEEP_GENERATIONS - n,
            forall|i: int| 0 <= i < r@.len() ==> step_is(#[trigger] r@[i], rotation_plan()[i]),
        decreases n,
    {
        if n == KEEP_GENERATIONS {
            r.push(RotationStep::Remove(generation(n as u64)));
        } else {
            r.push(RotationStep::Rename { from: generation(n as u64), to: generation((n + 1) as u64) });
        }
        n -= 1;
    }
    let active = chars_of("mimir.log");
    proof {
        reveal_strlit("mimir.log");
        assert(active@ =~= active_name());
    }
    let ghost before = r@;
    r.push(RotationStep::Rename { from: string_from_chars(active), to: generation(1) });
    proof {
        assert forall|i: int| 0 <= i < r@.len() implies step_is(
            #[trigger] r@[i],
            rotation_plan()[i],
        ) by {
            if i < before.len() {
                assert(r@[i] == before[i]);
            }
        }
    }
    r
}

// ---------------------------------------------------------------------------
// What a rotation does to the log directory.
// ---------------------------------------------------------------------------

/// Applies one step to a directory modelled as names mapped to file
/// contents.
pub open spec fn apply_step(dir: Map<Seq<char>, int>, s: (bool, Seq<char>, Seq<char>)) -> Map<Seq<char>, int> {
    if s.0 {
        dir.remove(s.1)
    } else if dir.contains_key(s.1) {
        dir.remove(s.1).insert(s.2, dir[s.1])
    } else {
        dir
    }
}

pub open spec fn apply_steps(dir: Map<Seq<char>, int>, steps: Seq<(bool, Seq<char>, Seq<char>)>) -> Map<Seq<char>, int>
    decreases steps.len(),
{
    if steps.len() == 0 {
        dir
    } else {
        apply_steps(apply_step(dir, steps[0]), steps.drop_first())
    }
}

proof fn lemma_names_distinct()
    ensures
        generation_name(1) != generation_name(2),
        generation_name(1) != generation_name(3),
        generation_name(2) != generation_name(3),
        active_name() != generation_name(1),
        active_name() != generation_name(2),
        active_name() != generation_name(3),
{
    assert(generation_name(1)[10] == '1');
    assert(generation_name(2)[10] == '2');
    assert(generation_name(3)[10] == '3');
    assert(generation_name(1).len() == 15);
    assert(generation_name(2).len() == 15);
    assert(generation_name(3).len() == 15);
}

/// A rotation keeps the newest generations: the active file becomes
/// generation 1, each kept generation moves one place older, the oldest is
/// dropped, and no active file is left behind. Other files are untouched.
pub proof fn law_rotation_shifts_generations(dir: Map<Seq<char>, int>)
    ensures
        ({
            let out = apply_steps(dir, rotation_plan());
            &&& !out.contains_key(active_name())
            &&& dir.contains_key(active_name()) ==> out.contains_key(generation_name(1))
                && out[generation_name(1)] == dir[active_name()]
            &&& !dir.contains_key(active_name()) ==> !out.contains_key(generation_name(1))
            &&& forall|k: nat|
                1 <= k < KEEP_GENERATIONS ==> (dir.contains_key(#[trigger] generation_name(k))
                    <==> out.contains_key(generation_name(k + 1)))
            &&& forall|k: nat|
                1 <= k < KEEP_GENERATIONS && dir.contains_key(#[trigger] generation_name(k))
                    ==> out[generation_name(k + 1)] == dir[generation_name(k)]
            &&& forall|name: Seq<char>|
                name != active_name() && name != generation_name(1) && name != generation_name(2)
                    && name != generation_name(3) ==> (#[trigger] out.contains_key(name)
                    == dir.contains_key(name) && (out.contains_key(name) ==> out[name]
                    == dir[name]))
        }),
{
    lemma_names_distinct();
    let p = rotation_plan();
    let d1 = apply_step(dir, p[0]);
    let d2 = apply_step(d1, p[1]);
    let d3 = apply_step(d2, p[2]);
    let d4 = apply_step(d3, p[3]);
    assert(p.drop_first().drop_first().drop_first().drop_first() =~= Seq::<(bool, Seq<char>, Seq<char>)>::empty());
    reveal_with_fuel(apply_steps, 5);
    assert(apply_steps(dir, p) == d4) by {
        assert(p.drop_first()[0] == p[1]);
        assert(p.drop_first().drop_first()[0] == p[2]);
        assert(p.drop_first().drop_first().drop_first()[0] == p[3]);
    }
    assert forall|k: nat| 1 <= k < KEEP_GENERATIONS implies (dir.contains_key(
        #[trigger] generation_name(k),
    ) <==> d4.contains_key(generation_name(k + 1))) by {
        assert(k == 1 || k == 2);
    }
    assert forall|k: nat|
        1 <= k < KEEP_GENERATIONS && dir.contains_key(#[trigger] generation_name(k)) implies d4[generation_name(
        k + 1,
    )] == dir[generation_name(k)] by {
        assert(k == 1 || k == 2);
    }
}

} // verus!

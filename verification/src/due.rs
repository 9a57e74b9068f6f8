use chrono::{Datelike, Timelike};
use vstd::prelude::*;

use crate::model::{Priority, Status, Task};
use crate::text::{decimal, minus_or_zero, repeat_seq};

verus! {

/// A calendar moment in local time, field by field.
///
/// Moments are compared field by field, most significant first; for the
/// values chrono produces this is the order of chrono's `NaiveDateTime`
/// (its derived order compares the date, then the seconds of the day, then
/// the fraction, with a leap second held as a fraction of a billion or more).
#[derive(Clone, Copy, Debug, PartialEq, Eq, Structural)]
pub struct Moment {
    pub year: i32,
    pub month: u32,
    pub day: u32,
    pub hour: u32,
    pub minute: u32,
    pub second: u32,
    pub nanosecond: u32,
}

/// Whether moment `a` lies before moment `b`.
pub open spec fn moment_before(a: Moment, b: Moment) -> bool {
    if a.year != b.year {
        a.year < b.year
    } else if a.month != b.month {
        a.month < b.month
    } else if a.day != b.day {
        a.day < b.day
    } else if a.hour != b.hour {
        a.hour < b.hour
    } else if a.minute != b.minute {
        a.minute < b.minute
    } else if a.second != b.second {
        a.second < b.second
    } else {
        a.nanosecond < b.nanosecond
    }
}

/// Moments are strictly and totally ordered: no moment lies before itself,
/// the order is transitive, and of two different moments one lies before
/// the other.
pub proof fn lemma_moment_order(a: Moment, b: Moment, c: Moment)
    ensures
        !moment_before(a, a),
        moment_before(a, b) && moment_before(b, c) ==> moment_before(a, c),
        a != b ==> moment_before(a, b) || moment_before(b, a),
{
}

/// Whether moment `a` lies before moment `b`.
pub fn before(a: &Moment, b: &Moment) -> (r: bool)
    ensures
        r == moment_before(*a, *b),
{
    if a.year != b.year {
        a.year < b.year
    } else if a.month != b.month {
        a.month < b.month
    } else if a.day != b.day {
        a.day < b.day
    } else if a.hour != b.hour {
        a.hour < b.hour
    } else if a.minute != b.minute {
        a.minute < b.minute
    } else if a.second != b.second {
        a.second < b.second
    } else {
        a.nanosecond < b.nanosecond
    }
}

// ---------------------------------------------------------------------------
// chrono
// ---------------------------------------------------------------------------

/// What `NaiveDateTime::parse_from_str(s, "%Y-%m-%d %H:%M")` of chrono
/// gives for `s`: the year, month, day, hour, minute, second and
/// nanosecond of the moment read, or nothing where `s` is not in that form.
pub uninterp spec fn chrono_date_time(s: Seq<char>) -> Option<(i32, u32, u32, u32, u32, u32, u32)>;

/// What `NaiveDate::parse_from_str(s, "%Y-%m-%d")` of chrono gives for
/// `s`: the year, month and day read, or nothing where `s` is not a date
/// in that form.
pub uninterp spec fn chrono_date(s: Seq<char>) -> Option<(i32, u32, u32)>;

/// Calls `NaiveDateTime::parse_from_str` of chrono with the format
/// "%Y-%m-%d %H:%M": claims that the fields of the result (or its failure)
/// depend on the characters of `s` alone.
#[verifier::external_body]
fn parse_date_time(s: &str) -> (r: Option<(i32, u32, u32, u32, u32, u32, u32)>)
    ensures
        r == chrono_date_time(s@),
{
    match chrono::NaiveDateTime::parse_from_str(s, "%Y-%m-%d %H:%M") {
        Ok(dt) => Some((dt.year(), dt.month(), dt.day(), dt.hour(), dt.minute(), dt.second(), dt.nanosecond())),
        Err(_) => None,
    }
}

/// Calls `NaiveDate::parse_from_str` of chrono with the format "%Y-%m-%d":
/// claims that the fields of the result (or its failure) depend on the
/// characters of `s` alone.
#[verifier::external_body]
fn parse_date(s: &str) -> (r: Option<(i32, u32, u32)>)
    ensures
        r == chrono_date(s@),
{
    match chrono::NaiveDate::parse_from_str(s, "%Y-%m-%d") {
        Ok(d) => Some((d.year(), d.month(), d.day())),
        Err(_) => None,
    }
}

/// Calls `Local::now()` of chrono and takes its local date and time of day.
/// Nothing is claimed of the result: it is the clock's reading.
#[verifier::external_body]
pub(crate) fn local_now() -> (r: Moment) {
    let dt = chrono::Local::now().naive_local();
    Moment {
        year: dt.year(),
        month: dt.month(),
        day: dt.day(),
        hour: dt.hour(),
        minute: dt.minute(),
        second: dt.second(),
        nanosecond: dt.nanosecond(),
    }
}

/// `n` in decimal, with leading zeros up to `width` digits.
pub open spec fn zero_padded(n: nat, width: nat) -> Seq<char> {
    repeat_seq("0"@, minus_or_zero(width as int, decimal(n).len() as int)) + decimal(n)
}

/// A year as chrono's "%Y" writes it: four digits, zero-padded, for the
/// years 0 to 9999; otherwise a sign and at least four digits.
pub open spec fn year_text(y: int) -> Seq<char> {
    if 0 <= y <= 9999 {
        zero_padded(y as nat, 4)
    } else if y > 9999 {
        "+"@ + zero_padded(y as nat, 4)
    } else {
        "-"@ + zero_padded((-y) as nat, 4)
    }
}

/// A date as chrono's "%Y-%m-%d" writes it.
pub open spec fn date_text(y: int, m: nat, d: nat) -> Seq<char> {
    year_text(y) + "-"@ + zero_padded(m, 2) + "-"@ + zero_padded(d, 2)
}

/// Whether `s` is a calendar date written as "%Y-%m-%d" writes one.
pub open spec fn is_date_text(s: Seq<char>) -> bool {
    exists|y: int, m: nat, d: nat| 1 <= m <= 12 && 1 <= d <= 31 && s == #[trigger] date_text(y, m, d)
}

/// Calls `Local::now()` of chrono and formats it with "%Y-%m-%d". Which
/// date comes back is the clock's reading; claimed is only its form, as
/// chrono documents "%Y", "%m" and "%d" (year zero-padded to four digits,
/// signed outside 0 to 9999; month 01 to 12; day 01 to 31).
#[verifier::external_body]
pub(crate) fn local_today() -> (r: String)
    ensures
        is_date_text(r@),
{
    chrono::Local::now().format("%Y-%m-%d").to_string()
}

// ---------------------------------------------------------------------------
// Due times
// ---------------------------------------------------------------------------

/// The moment a due text stands for: "YYYY-MM-DD HH:MM" is that minute,
/// "YYYY-MM-DD" is 23:59:59 of that day; anything else stands for none.
pub open spec fn due_moment(s: Seq<char>) -> Option<Moment> {
    match chrono_date_time(s) {
        Some(f) => Some(Moment {
            year: f.0,
            month: f.1,
            day: f.2,
            hour: f.3,
            minute: f.4,
            second: f.5,
            nanosecond: f.6,
        }),
        None => match chrono_date(s) {
            Some(d) => Some(Moment {
                year: d.0,
                month: d.1,
                day: d.2,
                hour: 23,
                minute: 59,
                second: 59,
                nanosecond: 0,
            }),
            None => None,
        },
    }
}

/// Reads a due time: "YYYY-MM-DD HH:MM", or "YYYY-MM-DD", which is due at
/// 23:59:59 of that day. Fails where the text is in neither form.
pub fn parse_due(s: &str) -> (r: Option<Moment>)
    ensures
        r == due_moment(s@),
{
    match parse_date_time(s) {
        Some(f) => Some(Moment {
            year: f.0,
            month: f.1,
            day: f.2,
            hour: f.3,
            minute: f.4,
            second: f.5,
            nanosecond: f.6,
        }),
        None => match parse_date(s) {
            Some(d) => Some(Moment {
                year: d.0,
                month: d.1,
                day: d.2,
                hour: 23,
                minute: 59,
                second: 59,
                nanosecond: 0,
            }),
            None => None,
        },
    }
}

/// Whether a task is overdue at `now`: it is pending, and its due time
/// reads as a moment before `now`. A due text that does not read is never
/// overdue.
pub open spec fn overdue_at(t: Task, now: Moment) -> bool {
    &&& t.status == Status::Pending
    &&& match t.due {
        Some(s) => match due_moment(s@) {
            Some(m) => moment_before(m, now),
            None => false,
        },
        None => false,
    }
}

/// Whether the task is overdue at `now`.
pub fn due_overdue_at(task: &Task, now: &Moment) -> (r: bool)
    ensures
        r == overdue_at(*task, *now),
{
    if task.status != Status::Pending {
        return false;
    }
    match &task.due {
        Some(s) => match parse_due(s.as_str()) {
            Some(m) => before(&m, now),
            None => false,
        },
        None => false,
    }
}

/// Whether the task is overdue now, by the local clock.
pub fn due_overdue(task: &Task) -> (r: bool)
    ensures
        exists|now: Moment| r == overdue_at(*task, now),
        task.status != Status::Pending ==> !r,
        task.due is None ==> !r,
        (task.due matches Some(s) && due_moment(s@) is None) ==> !r,
{
    let now = local_now();
    due_overdue_at(task, &now)
}

/// The due cell of a task: "-" without a due time; the due text, with "!"
/// after it when the task is overdue at `now` (in red where `colored`).
pub open spec fn due_cell_text(t: Task, now: Moment, colored: bool) -> Seq<char> {
    match t.due {
        None => "-"@,
        Some(s) => if overdue_at(t, now) {
            if colored {
                "\x1b[31m"@ + s@ + "!"@ + "\x1b[0m"@
            } else {
                s@ + "!"@
            }
        } else {
            s@
        },
    }
}

/// The due cell of a task at `now`.
pub fn due_cell_at(task: &Task, now: &Moment, colored: bool) -> (r: String)
    ensures
        r@ == due_cell_text(*task, *now, colored),
{
    match &task.due {
        None => String::from_str("-"),
        Some(s) => {
            if due_overdue_at(task, now) {
                if colored {
                    let mut out = String::from_str("\x1b[31m");
                    out.append(s.as_str());
                    out.append("!");
                    out.append("\x1b[0m");
                    out
                } else {
                    let mut out = s.clone();
                    out.append("!");
                    out
                }
            } else {
                s.clone()
            }
        },
    }
}

/// The due cell of a task by the local clock.
pub fn due_cell(task: &Task, colored: bool) -> (r: String)
    ensures
        exists|now: Moment| r@ == due_cell_text(*task, now, colored),
        task.due is None ==> r@ == "-"@,
        task.status != Status::Pending ==> (task.due matches Some(s) && r@ == s@) || task.due is None,
{
    let now = local_now();
    due_cell_at(task, &now, colored)
}

/// The priority label, wrapped in its colour code where `colored`.
pub open spec fn priority_text(p: Priority, colored: bool) -> Seq<char> {
    if colored {
        p.spec_color() + p.spec_label() + "\x1b[0m"@
    } else {
        p.spec_label()
    }
}

/// The priority label, coloured where the output is a terminal.
pub fn colored_priority(p: Priority, colored: bool) -> (r: String)
    ensures
        r@ == priority_text(p, colored),
{
    if colored {
        let mut s = String::from_str(p.color());
        s.append(p.label());
        s.append("\x1b[0m");
        s
    } else {
        String::from_str(p.label())
    }
}

} // verus!

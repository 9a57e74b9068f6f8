use vstd::prelude::*;

use crate::due::{due_cell_at, due_cell_text, local_now, overdue_at, priority_text, colored_priority, Moment, due_overdue_at};
use crate::model::{Data, Priority, Status, Task};
use crate::query::derefs;
use crate::text::{
    decimal, decimal_text, display_width, pad, pad_shown, padded, padded_shown, repeat_seq, repeat_text, text_width,
};

verus! {

/// The characters of each line.
pub open spec fn views(s: Seq<String>) -> Seq<Seq<char>> {
    Seq::new(s.len(), |i: int| s[i]@)
}

/// The larger of two widths.
pub open spec fn wider(a: usize, b: usize) -> usize {
    if a >= b { a } else { b }
}

/// The widest of `floor` and the widths that `w` gives the tasks.
pub open spec fn column_width(s: Seq<Task>, w: spec_fn(Task) -> usize, floor: usize) -> usize
    decreases s.len(),
{
    if s.len() == 0 {
        floor
    } else {
        wider(column_width(s.drop_last(), w, floor), w(s.last()))
    }
}

/// The width of the id column: the widest id, and at least 2.
pub open spec fn id_width(s: Seq<Task>) -> usize {
    column_width(s, |t: Task| display_width(decimal(t.id as nat)), 2)
}

/// The width of the text column: the widest text, and at least 4.
pub open spec fn text_width_of(s: Seq<Task>) -> usize {
    column_width(s, |t: Task| display_width(t.text@), 4)
}

/// The width of the priority column: the widest of its header and its labels.
pub open spec fn priority_width(s: Seq<Task>) -> usize {
    column_width(s, |t: Task| display_width(t.priority.spec_label()), display_width("优先级"@))
}

/// The width of the due column: the widest due cell (without colour
/// codes), and at least 4.
pub open spec fn due_width(s: Seq<Task>, now: Moment) -> usize {
    column_width(s, |t: Task| display_width(due_cell_text(t, now, false)), 4)
}

/// The table header.
pub open spec fn header_line(id_w: usize, prio_w: usize, text_w: usize, due_w: usize) -> Seq<char> {
    padded("ID"@, id_w) + "  "@ + padded("状态"@, 4) + " "@ + padded("优先级"@, prio_w) + " "@
        + padded("任务"@, text_w) + "  "@ + padded("截止"@, due_w) + "  "@ + "创建日期"@
}

/// The status word of a task in the table.
pub open spec fn status_word(s: Status) -> Seq<char> {
    if s == Status::Done { "完成"@ } else { "待办"@ }
}

/// The table row of a task. Coloured cells are padded by the width of the
/// text they show, so that colour codes do not shift the columns.
pub open spec fn row_line(
    t: Task,
    now: Moment,
    colored: bool,
    id_w: usize,
    prio_w: usize,
    text_w: usize,
    due_w: usize,
) -> Seq<char> {
    padded(decimal(t.id as nat), id_w) + "  "@ + padded(status_word(t.status), 4) + " "@
        + padded_shown(priority_text(t.priority, colored), t.priority.spec_label(), prio_w) + " "@
        + padded(t.text@, text_w) + "  "@
        + padded_shown(due_cell_text(t, now, colored), due_cell_text(t, now, false), due_w) + "  "@
        + t.created_at@
}

/// The line shown for an empty list.
pub open spec fn empty_hint(status: Option<Status>) -> Seq<char> {
    match status {
        Some(s) => "（没有任务，状态："@ + (if s == Status::Done { "done"@ } else { "pending"@ }) + "）"@,
        None => "（没有任务）"@,
    }
}

/// The lines of the task table at `now`: a hint where there are no tasks;
/// else the header, a rule as wide as the header, and one row per task, each
/// column padded to the widest of its header and its cells.
pub open spec fn table_lines(s: Seq<Task>, status: Option<Status>, now: Moment, colored: bool) -> Seq<Seq<char>> {
    if s.len() == 0 {
        seq![empty_hint(status)]
    } else {
        let id_w = id_width(s);
        let prio_w = priority_width(s);
        let text_w = text_width_of(s);
        let due_w = due_width(s, now);
        let header = header_line(id_w, prio_w, text_w, due_w);
        seq![header, repeat_seq("-"@, display_width(header) as nat)]
            + Seq::new(s.len(), |i: int| row_line(s[i], now, colored, id_w, prio_w, text_w, due_w))
    }
}

fn status_text(s: Status) -> (r: &'static str)
    ensures
        r@ == status_word(s),
{
    if s == Status::Done { "完成" } else { "待办" }
}

fn hint_line(status: Option<Status>) -> (r: String)
    ensures
        r@ == empty_hint(status),
{
    match status {
        Some(s) => {
            let mut out = String::from_str("（没有任务，状态：");
            if s == Status::Done {
                out.append("done");
            } else {
                out.append("pending");
            }
            out.append("）");
            out
        },
        None => String::from_str("（没有任务）"),
    }
}

fn header_text(id_w: usize, prio_w: usize, text_w: usize, due_w: usize) -> (r: String)
    ensures
        r@ == header_line(id_w, prio_w, text_w, due_w),
{
    let mut out = pad("ID", id_w);
    out.append("  ");
    out.append(pad("状态", 4).as_str());
    out.append(" ");
    out.append(pad("优先级", prio_w).as_str());
    out.append(" ");
    out.append(pad("任务", text_w).as_str());
    out.append("  ");
    out.append(pad("截止", due_w).as_str());
    out.append("  ");
    out.append("创建日期");
    out
}

fn row_text(t: &Task, now: &Moment, colored: bool, id_w: usize, prio_w: usize, text_w: usize, due_w: usize) -> (r: String)
    ensures
        r@ == row_line(*t, *now, colored, id_w, prio_w, text_w, due_w),
{
    let id = decimal_text(t.id);
    let mut out = pad(id.as_str(), id_w);
    out.append("  ");
    out.append(pad(status_text(t.status), 4).as_str());
    out.append(" ");
    out.append(pad_shown(colored_priority(t.priority, colored).as_str(), t.priority.label(), prio_w).as_str());
    out.append(" ");
    out.append(pad(t.text.as_str(), text_w).as_str());
    out.append("  ");
    let plain_due = due_cell_at(t, now, false);
    out.append(pad_shown(due_cell_at(t, now, colored).as_str(), plain_due.as_str(), due_w).as_str());
    out.append("  ");
    out.append(t.created_at.as_str());
    out
}

/// The task table at `now`, line by line; `colored` puts terminal colour
/// codes on priorities and overdue marks.
pub fn render_table_at(tasks: &Vec<&Task>, status_filter: Option<Status>, now: &Moment, colored: bool) -> (r: Vec<String>)
    ensures
        views(r@) == table_lines(derefs(tasks@), status_filter, *now, colored),
{
    let ghost s = derefs(tasks@);
    let mut lines: Vec<String> = Vec::new();
    if tasks.len() == 0 {
        lines.push(hint_line(status_filter));
        proof {
            assert(views(lines@) =~= table_lines(s, status_filter, *now, colored));
        }
        return lines;
    }
    let n = tasks.len();
    let mut id_w: usize = 2;
    let mut prio_w: usize = text_width("优先级");
    let mut text_w: usize = 4;
    let mut due_w: usize = 4;
    let ghost fid = |t: Task| display_width(decimal(t.id as nat));
    let ghost fprio = |t: Task| display_width(t.priority.spec_label());
    let ghost ftext = |t: Task| display_width(t.text@);
    let ghost fdue = |t: Task| display_width(due_cell_text(t, *now, false));
    for i in 0..n
        invariant
            n == tasks@.len(),
            s == derefs(tasks@),
            fid == (|t: Task| display_width(decimal(t.id as nat))),
            ftext == (|t: Task| display_width(t.text@)),
            fprio == (|t: Task| display_width(t.priority.spec_label())),
            fdue == (|t: Task| display_width(due_cell_text(t, *now, false))),
            id_w == column_width(s.take(i as int), fid, 2),
            prio_w == column_width(s.take(i as int), fprio, display_width("优先级"@)),
            text_w == column_width(s.take(i as int), ftext, 4),
            due_w == column_width(s.take(i as int), fdue, 4),
    {
        assert(s.take(i + 1).drop_last() =~= s.take(i as int));
        let t = tasks[i];
        let w1 = text_width(decimal_text(t.id).as_str());
        if w1 > id_w {
            id_w = w1;
        }
        let w2 = text_width(t.text.as_str());
        if w2 > text_w {
            text_w = w2;
        }
        let wp = text_width(t.priority.label());
        if wp > prio_w {
            prio_w = wp;
        }
        let w3 = text_width(due_cell_at(t, now, false).as_str());
        if w3 > due_w {
            due_w = w3;
        }
    }
    assert(s.take(n as int) =~= s);
    let header = header_text(id_w, prio_w, text_w, due_w);
    let rule = repeat_text("-", text_width(header.as_str()));
    lines.push(header);
    lines.push(rule);
    for i in 0..n
        invariant
            n == tasks@.len(),
            s == derefs(tasks@),
            s.len() > 0,
            id_w == id_width(s),
            prio_w == priority_width(s),
            text_w == text_width_of(s),
            due_w == due_width(s, *now),
            lines@.len() == i + 2,
            views(lines@) == table_lines(s, status_filter, *now, colored).take(i + 2),
    {
        let row = row_text(tasks[i], now, colored, id_w, prio_w, text_w, due_w);
        lines.push(row);
        proof {
            assert(views(lines@) =~= table_lines(s, status_filter, *now, colored).take(i + 3));
        }
    }
    proof {
        assert(views(lines@) =~= table_lines(s, status_filter, *now, colored));
    }
    lines
}

/// The task table by the local clock.
pub fn render_tasks(tasks: &Vec<&Task>, status_filter: Option<Status>, colored: bool) -> (r: Vec<String>)
    ensures
        exists|now: Moment| views(r@) == table_lines(derefs(tasks@), status_filter, now, colored),
{
    let now = local_now();
    render_table_at(tasks, status_filter, &now, colored)
}

// ---------------------------------------------------------------------------
// Statistics
// ---------------------------------------------------------------------------

/// How many tasks are done.
pub open spec fn done_count(s: Seq<Task>) -> nat {
    s.filter(|t: Task| t.status == Status::Done).len()
}

/// How many tasks are overdue at `now`.
pub open spec fn overdue_count(s: Seq<Task>, now: Moment) -> nat {
    s.filter(|t: Task| overdue_at(t, now)).len()
}

/// How many pending tasks have priority `p`.
pub open spec fn pending_count(s: Seq<Task>, p: Priority) -> nat {
    s.filter(|t: Task| t.status == Status::Pending && t.priority == p).len()
}

/// The bar of a count: one "#" per task, or "-" for none.
pub open spec fn bar(count: nat) -> Seq<char> {
    if count > 0 { repeat_seq("#"@, count) } else { "-"@ }
}

/// The line of one priority in the distribution of pending tasks.
pub open spec fn priority_line(s: Seq<Task>, p: Priority) -> Seq<char> {
    "  "@ + p.spec_label() + "优先级："@ + decimal(pending_count(s, p)) + "  "@ + bar(pending_count(s, p))
}

/// The statistics at `now`: total, done and pending counts; the overdue
/// count where some task is pending; the pending tasks per priority where
/// there is any task.
pub open spec fn stats_lines(s: Seq<Task>, now: Moment) -> Seq<Seq<char>> {
    let total = s.len();
    let done = done_count(s);
    let pending = (total - done) as nat;
    seq![
        "任务总数："@ + decimal(total),
        "已完成："@ + decimal(done),
        "待办："@ + decimal(pending),
    ] + (if pending > 0 { seq!["已逾期："@ + decimal(overdue_count(s, now))] } else { Seq::empty() })
      + (if total > 0 {
        seq![
            "待办优先级分布："@,
            priority_line(s, Priority::High),
            priority_line(s, Priority::Medium),
            priority_line(s, Priority::Low),
        ]
    } else {
        Seq::empty()
    })
}

fn labelled_count(label: &str, n: usize) -> (r: String)
    ensures
        r@ == label@ + decimal(n as nat),
{
    let mut out = String::from_str(label);
    out.append(decimal_text(n as u64).as_str());
    out
}

fn count_pending(tasks: &Vec<Task>, p: Priority) -> (r: usize)
    ensures
        r == pending_count(tasks@, p),
{
    let ghost f = |t: Task| t.status == Status::Pending && t.priority == p;
    let ghost s = tasks@;
    let mut c: usize = 0;
    let n = tasks.len();
    proof {
        reveal_with_fuel(Seq::<_>::filter, 1);
        assert(s.take(0) =~= Seq::<Task>::empty());
    }
    for i in 0..n
        invariant
            n == s.len(),
            s == tasks@,
            f == (|t: Task| t.status == Status::Pending && t.priority == p),
            c == s.take(i as int).filter(f).len(),
            c <= i,
    {
        proof {
            reveal_with_fuel(Seq::<_>::filter, 1);
            assert(s.take(i + 1).drop_last() =~= s.take(i as int));
        }
        if tasks[i].status == Status::Pending && tasks[i].priority == p {
            c = c + 1;
        }
    }
    assert(s.take(n as int) =~= s);
    c
}

fn priority_text_line(tasks: &Vec<Task>, p: Priority) -> (r: String)
    ensures
        r@ == priority_line(tasks@, p),
{
    let c = count_pending(tasks, p);
    let mut out = String::from_str("  ");
    out.append(p.label());
    out.append("优先级：");
    out.append(decimal_text(c as u64).as_str());
    out.append("  ");
    if c > 0 {
        out.append(repeat_text("#", c).as_str());
    } else {
        out.append("-");
    }
    out
}

/// The statistics of the list at `now`, line by line.
pub fn stats_at(data: &Data, now: &Moment) -> (r: Vec<String>)
    ensures
        views(r@) == stats_lines(data.tasks@, *now),
{
    let ghost s = data.tasks@;
    let ghost fd = |t: Task| t.status == Status::Done;
    let ghost fo = |t: Task| overdue_at(t, *now);
    let n = data.tasks.len();
    let mut done: usize = 0;
    let mut overdue: usize = 0;
    proof {
        reveal_with_fuel(Seq::<_>::filter, 1);
        assert(s.take(0) =~= Seq::<Task>::empty());
    }
    for i in 0..n
        invariant
            n == s.len(),
            s == data.tasks@,
            fd == (|t: Task| t.status == Status::Done),
            fo == (|t: Task| overdue_at(t, *now)),
            done == s.take(i as int).filter(fd).len(),
            overdue == s.take(i as int).filter(fo).len(),
            done <= i,
            overdue <= i,
    {
        proof {
            reveal_with_fuel(Seq::<_>::filter, 1);
            assert(s.take(i + 1).drop_last() =~= s.take(i as int));
        }
        if data.tasks[i].status == Status::Done {
            done = done + 1;
        }
        if due_overdue_at(&data.tasks[i], now) {
            overdue = overdue + 1;
        }
    }
    assert(s.take(n as int) =~= s);
    let pending = n - done;
    let mut lines: Vec<String> = Vec::new();
    lines.push(labelled_count("任务总数：", n));
    lines.push(labelled_count("已完成：", done));
    lines.push(labelled_count("待办：", pending));
    if pending > 0 {
        lines.push(labelled_count("已逾期：", overdue));
    }
    if n > 0 {
        lines.push(String::from_str("待办优先级分布："));
        lines.push(priority_text_line(&data.tasks, Priority::High));
        lines.push(priority_text_line(&data.tasks, Priority::Medium));
        lines.push(priority_text_line(&data.tasks, Priority::Low));
    }
    proof {
        assert(views(lines@) =~= stats_lines(s, *now));
    }
    lines
}

/// The statistics of the list by the local clock.
pub fn cmd_stats(data: &Data) -> (r: Vec<String>)
    ensures
        exists|now: Moment| views(r@) == stats_lines(data.tasks@, now),
{
    let now = local_now();
    stats_at(data, &now)
}

} // verus!

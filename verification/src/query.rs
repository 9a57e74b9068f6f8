use vstd::prelude::*;

use crate::due::{before, due_moment, lemma_moment_order, moment_before, parse_due, Moment};
use crate::model::{Data, SortBy, Status, Task, TodoError};
use crate::ops::opt_view;
use crate::text::{
    contains_text, is_ascii_text, is_blank, lowers_ascii, lemma_seq_less_total, lemma_seq_less_transitive, lowercase, occurs_in,
    seq_less, text_less, to_lowercase, trim, trimmed,
};

verus! {

/// The tasks a list of task references points to.
pub open spec fn derefs(s: Seq<&Task>) -> Seq<Task> {
    Seq::new(s.len(), |i: int| *s[i])
}

// ---------------------------------------------------------------------------
// Selecting
// ---------------------------------------------------------------------------

/// Whether a task is selected by a status filter and a keyword: it has the
/// status (where one is given), and the lower-cased keyword occurs in its
/// lower-cased text (where one is given).
pub open spec fn selected(t: Task, status: Option<Status>, keyword: Option<Seq<char>>) -> bool {
    &&& (status matches Some(s) ==> t.status == s)
    &&& (keyword matches Some(k) ==> occurs_in(lowercase(k), lowercase(t.text@)))
}

/// The selected tasks, in their order in the list.
pub open spec fn selection(s: Seq<Task>, status: Option<Status>, keyword: Option<Seq<char>>) -> Seq<Task> {
    s.filter(|t: Task| selected(t, status, keyword))
}

/// Collects the tasks with the given status (if any) whose text contains the
/// keyword (if any), letter case aside; in list order.
pub fn collect_tasks<'a>(data: &'a Data, status_filter: Option<Status>, keyword: Option<&str>) -> (r: Vec<&'a Task>)
    ensures
        derefs(r@) == selection(data.tasks@, status_filter, opt_view(keyword)),
        keyword matches Some(k) ==> (is_ascii_text(k@) ==> lowers_ascii(k@)),
        keyword is Some ==> forall|k: int| 0 <= k < data.tasks@.len()
            ==> (is_ascii_text(#[trigger] data.tasks@[k].text@) ==> lowers_ascii(data.tasks@[k].text@)),
{
    let kw: Option<String> = match keyword {
        Some(k) => Some(to_lowercase(k)),
        None => None,
    };
    let ghost pred = |t: Task| selected(t, status_filter, opt_view(keyword));
    let ghost s = data.tasks@;
    let mut out: Vec<&'a Task> = Vec::new();
    let n = data.tasks.len();
    proof {
        reveal_with_fuel(Seq::<_>::filter, 1);
        assert(s.take(0) =~= Seq::<Task>::empty());
        assert(derefs(out@) =~= s.take(0).filter(pred));
    }
    for i in 0..n
        invariant
            n == s.len(),
            s == data.tasks@,
            pred == (|t: Task| selected(t, status_filter, opt_view(keyword))),
            kw matches Some(k) ==> keyword matches Some(w) && k@ == lowercase(w@),
            kw is None ==> keyword is None,
            derefs(out@) == s.take(i as int).filter(pred),
            kw is Some ==> forall|q: int| 0 <= q < i
                ==> (is_ascii_text(#[trigger] s[q].text@) ==> lowers_ascii(s[q].text@)),
    {
        proof {
            reveal_with_fuel(Seq::<_>::filter, 1);
            assert(s.take(i + 1).drop_last() =~= s.take(i as int));
        }
        let t = &data.tasks[i];
        let status_ok = match status_filter {
            Some(st) => t.status == st,
            None => true,
        };
        let text_ok = match &kw {
            Some(k) => {
                let low = to_lowercase(t.text.as_str());
                contains_text(low.as_str(), k.as_str())
            },
            None => true,
        };
        let keep = status_ok && text_ok;
        let ghost before = out@;
        if keep {
            out.push(t);
            proof {
                assert(derefs(out@) =~= derefs(before).push(*t));
            }
        }
    }
    proof {
        assert(s.take(n as int) =~= s);
    }
    out
}

// ---------------------------------------------------------------------------
// Sorting
// ---------------------------------------------------------------------------

/// Whether a task is done (done tasks sort after pending ones).
pub open spec fn done_flag(t: Task) -> bool {
    t.status != Status::Pending
}

/// The due moment a task sorts by: the moment its due text reads as, if it
/// has a due text that reads.
pub open spec fn due_key(t: Task) -> Option<Moment> {
    match t.due {
        Some(d) => due_moment(d@),
        None => None,
    }
}

/// Whether `a` sorts strictly before `b`: pending before done; then by
/// priority weight, creation date, or due time (tasks without a due time
/// last; due texts that do not read after those that do, by text); then
/// by id.
pub open spec fn key_before(sort: SortBy, a: Task, b: Task) -> bool {
    if done_flag(a) != done_flag(b) {
        !done_flag(a)
    } else {
        match sort {
            SortBy::Priority => if a.priority.spec_weight() != b.priority.spec_weight() {
                a.priority.spec_weight() < b.priority.spec_weight()
            } else {
                a.id < b.id
            },
            SortBy::Created => if a.created_at@ != b.created_at@ {
                seq_less(a.created_at@, b.created_at@)
            } else {
                a.id < b.id
            },
            SortBy::Due => if !due_part_same(a, b) {
                due_part_before(a, b)
            } else {
                a.id < b.id
            },
        }
    }
}

/// The due text of a task, or the empty text.
pub open spec fn due_text(t: Task) -> Seq<char> {
    match t.due {
        Some(d) => d@,
        None => Seq::empty(),
    }
}

/// Whether `a` and `b` have the same due part of the sort key.
pub open spec fn due_part_same(a: Task, b: Task) -> bool {
    &&& (a.due is None) == (b.due is None)
    &&& due_key(a) == due_key(b)
    &&& due_text(a) == due_text(b)
}

/// Whether the due part of `a` sorts before that of `b`: a task with a due
/// text before one without; among due texts, those that read as a moment
/// before those that do not, and earlier moments first; then by the text.
pub open spec fn due_part_before(a: Task, b: Task) -> bool {
    if (a.due is None) != (b.due is None) {
        a.due is Some
    } else if due_key(a) != due_key(b) {
        match (due_key(a), due_key(b)) {
            (Some(x), Some(y)) => moment_before(x, y),
            (Some(_), None) => true,
            _ => false,
        }
    } else {
        seq_less(due_text(a), due_text(b))
    }
}

/// The due part of the sort key is a strict weak order with
/// `due_part_same` as its equivalence.
pub proof fn lemma_due_part_order(a: Task, b: Task, c: Task)
    ensures
        !due_part_before(a, a),
        due_part_before(a, b) && due_part_before(b, c) ==> due_part_before(a, c),
        !due_part_same(a, b) ==> due_part_before(a, b) || due_part_before(b, a),
        due_part_same(a, b) && due_part_before(a, c) ==> due_part_before(b, c),
        due_part_same(a, b) && due_part_before(c, a) ==> due_part_before(c, b),
{
    crate::text::lemma_seq_less_irreflexive(due_text(a));
    lemma_seq_less_total(due_text(a), due_text(b));
    if seq_less(due_text(a), due_text(b)) && seq_less(due_text(b), due_text(c)) {
        lemma_seq_less_transitive(due_text(a), due_text(b), due_text(c));
    }
    if due_key(a) is Some && due_key(b) is Some && due_key(c) is Some {
        lemma_moment_order(due_key(a)->0, due_key(b)->0, due_key(c)->0);
    }
    if due_key(a) is Some && due_key(b) is Some {
        lemma_moment_order(due_key(a)->0, due_key(b)->0, due_key(b)->0);
        lemma_moment_order(due_key(b)->0, due_key(a)->0, due_key(a)->0);
    }
    if due_key(a) is Some {
        lemma_moment_order(due_key(a)->0, due_key(a)->0, due_key(a)->0);
    }
}

/// Whether `a` and `b` have the same sort key.
pub open spec fn same_key(sort: SortBy, a: Task, b: Task) -> bool {
    &&& done_flag(a) == done_flag(b)
    &&& a.id == b.id
    &&& match sort {
        SortBy::Priority => a.priority.spec_weight() == b.priority.spec_weight(),
        SortBy::Created => a.created_at@ == b.created_at@,
        SortBy::Due => due_part_same(a, b),
    }
}

/// The sort order is a strict weak order: irreflexive and transitive, with
/// `same_key` as its equivalence.
pub proof fn lemma_key_order(sort: SortBy, a: Task, b: Task, c: Task)
    ensures
        !key_before(sort, a, a),
        key_before(sort, a, b) && key_before(sort, b, c) ==> key_before(sort, a, c),
        !key_before(sort, a, b) && !key_before(sort, b, a) ==> same_key(sort, a, b),
        same_key(sort, a, b) && key_before(sort, a, c) ==> key_before(sort, b, c),
        same_key(sort, a, b) && key_before(sort, c, a) ==> key_before(sort, c, b),
{
    lemma_seq_less_total(a.created_at@, b.created_at@);
    lemma_due_part_order(a, b, c);
    lemma_due_part_order(b, a, c);
    lemma_due_part_order(c, a, b);
    if seq_less(a.created_at@, b.created_at@) && seq_less(b.created_at@, c.created_at@) {
        lemma_seq_less_transitive(a.created_at@, b.created_at@, c.created_at@);
    }
    if seq_less(a.created_at@, b.created_at@) && seq_less(b.created_at@, a.created_at@) {
        lemma_seq_less_transitive(a.created_at@, b.created_at@, a.created_at@);
        crate::text::lemma_seq_less_irreflexive(a.created_at@);
    }
}

/// Whether `p` numbers the positions `0..n` each exactly once.
pub open spec fn is_permutation(p: Seq<int>, n: nat) -> bool {
    &&& p.len() == n
    &&& forall|i: int| 0 <= i < n ==> 0 <= #[trigger] p[i] < n
    &&& forall|i: int, j: int| 0 <= i < n && 0 <= j < n && i != j ==> #[trigger] p[i] != #[trigger] p[j]
}

/// Whether `out` is `input` sorted stably by `sort`, with `p` telling where
/// each element of `out` stood in `input`: nothing lost or added, no element
/// sorts before one placed ahead of it, and elements with the same key keep
/// their order.
pub open spec fn sorted_stably(sort: SortBy, input: Seq<Task>, out: Seq<Task>, p: Seq<int>) -> bool {
    &&& is_permutation(p, input.len())
    &&& out.len() == input.len()
    &&& forall|k: int| 0 <= k < out.len() ==> #[trigger] out[k] == input[p[k]]
    &&& forall|a: int, b: int| 0 <= a < b < out.len() ==> !key_before(sort, #[trigger] out[b], #[trigger] out[a])
    &&& forall|a: int, b: int|
        0 <= a < b < out.len() && same_key(sort, #[trigger] out[a], #[trigger] out[b]) ==> p[a] < p[b]
}

/// Whether task `a` sorts strictly before task `b`.
pub fn sorts_before(sort: SortBy, a: &Task, b: &Task) -> (r: bool)
    ensures
        r == key_before(sort, *a, *b),
{
    let fa = a.status != Status::Pending;
    let fb = b.status != Status::Pending;
    if fa != fb {
        return !fa;
    }
    match sort {
        SortBy::Priority => {
            let wa = a.priority.weight();
            let wb = b.priority.weight();
            if wa != wb {
                wa < wb
            } else {
                a.id < b.id
            }
        },
        SortBy::Created => {
            if !(a.created_at == b.created_at) {
                text_less(a.created_at.as_str(), b.created_at.as_str())
            } else {
                a.id < b.id
            }
        },
        SortBy::Due => {
            let (da, db) = match (&a.due, &b.due) {
                (Some(x), Some(y)) => (x, y),
                (Some(_), None) => return true,
                (None, Some(_)) => return false,
                (None, None) => return a.id < b.id,
            };
            let ma = parse_due(da.as_str());
            let mb = parse_due(db.as_str());
            let moments_differ = match (ma, mb) {
                (Some(x), Some(y)) => x != y,
                (None, None) => false,
                _ => true,
            };
            if moments_differ {
                match (ma, mb) {
                    (Some(x), Some(y)) => before(&x, &y),
                    (Some(_), None) => true,
                    _ => false,
                }
            } else if !(*da == *db) {
                text_less(da.as_str(), db.as_str())
            } else {
                a.id < b.id
            }
        },
    }
}

/// Sorts the tasks: pending ones first; within a status by the chosen key,
/// then by id. The sort is stable.
pub fn sort_tasks(tasks: &mut Vec<&Task>, sort: SortBy)
    ensures
        exists|p: Seq<int>| sorted_stably(sort, derefs(old(tasks)@), derefs(final(tasks)@), p),
{
    let ghost input = derefs(tasks@);
    let n = tasks.len();
    let mut out: Vec<&Task> = Vec::new();
    let ghost mut p: Seq<int> = Seq::empty();
    for i in 0..n
        invariant
            n == tasks@.len(),
            input == derefs(tasks@),
            out@.len() == i,
            p.len() == i,
            forall|k: int| 0 <= k < i ==> 0 <= #[trigger] p[k] < i,
            forall|a: int, b: int| 0 <= a < i && 0 <= b < i && a != b ==> #[trigger] p[a] != #[trigger] p[b],
            forall|k: int| 0 <= k < i ==> *#[trigger] out@[k] == input[p[k]],
            forall|a: int, b: int| 0 <= a < b < i ==> !key_before(sort, *#[trigger] out@[b], *#[trigger] out@[a]),
            forall|a: int, b: int|
                0 <= a < b < i && same_key(sort, *#[trigger] out@[a], *#[trigger] out@[b]) ==> p[a] < p[b],
    {
        let x = tasks[i];
        let mut pos: usize = 0;
        while pos < out.len() && !sorts_before(sort, x, out[pos])
            invariant
                pos <= out@.len(),
                forall|q: int| 0 <= q < pos ==> !key_before(sort, *x, *#[trigger] out@[q]),
            decreases out@.len() - pos,
        {
            pos = pos + 1;
        }
        let ghost old_out = out@;
        let ghost old_p = p;
        out.insert(pos, x);
        proof {
            p = old_p.insert(pos as int, i as int);
            assert forall|a: int, b: int| 0 <= a < b < i + 1 implies !key_before(sort, *#[trigger] out@[b], *#[trigger] out@[a]) by {
                if b == pos {
                    assert(out@[a] == old_out[a]);
                } else if a == pos {
                    assert(out@[b] == old_out[b - 1]);
                    if key_before(sort, *old_out[b - 1], *x) {
                        lemma_key_order(sort, *old_out[b - 1], *x, *old_out[pos as int]);
                        if b - 1 != pos {
                            assert(!key_before(sort, *old_out[b - 1], *old_out[pos as int]));
                        }
                    }
                } else if a < pos && b < pos {
                } else if a < pos {
                    assert(out@[b] == old_out[b - 1]);
                } else {
                    assert(out@[b] == old_out[b - 1]);
                    assert(out@[a] == old_out[a - 1]);
                }
            }
            assert forall|a: int, b: int|
                0 <= a < b < i + 1 && same_key(sort, *#[trigger] out@[a], *#[trigger] out@[b]) implies p[a] < p[b] by {
                if b == pos {
                    assert(p[b] == i);
                    assert(p[a] == old_p[a]);
                } else if a == pos {
                    assert(out@[b] == old_out[b - 1]);
                    lemma_key_order(sort, *x, *old_out[b - 1], *old_out[pos as int]);
                    lemma_key_order(sort, *old_out[b - 1], *x, *old_out[pos as int]);
                    if b - 1 != pos {
                        assert(!key_before(sort, *old_out[b - 1], *old_out[pos as int]));
                    }
                    lemma_key_order(sort, *old_out[b - 1], *old_out[b - 1], *old_out[b - 1]);
                } else if a < pos && b < pos {
                } else if a < pos {
                    assert(out@[b] == old_out[b - 1]);
                } else {
                    assert(out@[b] == old_out[b - 1]);
                    assert(out@[a] == old_out[a - 1]);
                }
            }
        }
    }
    proof {
        let o = derefs(out@);
        assert(sorted_stably(sort, input, o, p));
    }
    *tasks = out;
}

// ---------------------------------------------------------------------------
// Listing and searching
// ---------------------------------------------------------------------------

/// The tasks to list: those with the status (if any), sorted.
pub fn cmd_list<'a>(data: &'a Data, status_filter: Option<Status>, sort: SortBy) -> (r: Vec<&'a Task>)
    ensures
        exists|p: Seq<int>| sorted_stably(sort, selection(data.tasks@, status_filter, None), derefs(r@), p),
{
    let mut tasks = collect_tasks(data, status_filter, None);
    sort_tasks(&mut tasks, sort);
    tasks
}

/// The tasks whose text contains the keyword (trimmed; letter case aside),
/// with the status (if any), sorted by priority. A blank keyword is refused.
pub fn cmd_search<'a>(data: &'a Data, keyword: &str, status_filter: Option<Status>) -> (r: Result<Vec<&'a Task>, TodoError>)
    ensures
        trimmed(keyword@).len() == 0 ==> r == Err::<Vec<&'a Task>, TodoError>(TodoError::EmptyKeyword),
        trimmed(keyword@).len() != 0 ==> r is Ok,
        r matches Ok(v) ==> exists|p: Seq<int>|
            sorted_stably(SortBy::Priority, selection(data.tasks@, status_filter, Some(trimmed(keyword@))), derefs(v@), p),
{
    if is_blank(keyword) {
        return Err(TodoError::EmptyKeyword);
    }
    let k = trim(keyword);
    let mut tasks = collect_tasks(data, status_filter, Some(k));
    sort_tasks(&mut tasks, SortBy::Priority);
    let res: Result<Vec<&'a Task>, TodoError> = Ok(tasks);
    assert(res matches Ok(v) && v@ == tasks@);
    res
}

} // verus!

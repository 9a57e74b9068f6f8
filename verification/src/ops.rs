use vstd::prelude::*;

use crate::due::due_moment;
use crate::model::{with_status, Data, Priority, Status, Task, TodoError};
use crate::text::{decimal, decimal_text, trim, trimmed, is_blank};

verus! {

// ---------------------------------------------------------------------------
// Finding tasks by id
// ---------------------------------------------------------------------------

/// Whether some task has the id.
pub open spec fn has_id(s: Seq<Task>, id: u64) -> bool {
    exists|k: int| 0 <= k < s.len() && #[trigger] s[k].id == id
}

/// Whether `k` is the first position of a task with the id.
pub open spec fn first_with_id(s: Seq<Task>, id: u64, k: int) -> bool {
    &&& 0 <= k < s.len()
    &&& s[k].id == id
    &&& forall|j: int| 0 <= j < k ==> #[trigger] s[j].id != id
}

/// The first position of a task with the id (meaningful where there is one).
pub open spec fn position_of(s: Seq<Task>, id: u64) -> int {
    choose|k: int| first_with_id(s, id, k)
}

/// Whether the task at `k` is the first with its id.
pub open spec fn first_of_its_id(s: Seq<Task>, k: int) -> bool {
    forall|j: int| 0 <= j < k ==> #[trigger] s[j].id != s[k].id
}

/// Whether every id of `ids` belongs to some task.
pub open spec fn all_present(s: Seq<Task>, ids: Seq<u64>) -> bool {
    forall|j: int| 0 <= j < ids.len() ==> has_id(s, #[trigger] ids[j])
}

/// Whether `ids[j]` is the first id of `ids` that belongs to no task.
pub open spec fn first_missing(s: Seq<Task>, ids: Seq<u64>, j: int) -> bool {
    &&& 0 <= j < ids.len()
    &&& !has_id(s, ids[j])
    &&& forall|i: int| 0 <= i < j ==> has_id(s, #[trigger] ids[i])
}

/// Where a task has the id, a first such position exists, and it is
/// `position_of`.
pub proof fn lemma_position_of(s: Seq<Task>, id: u64, k: int)
    requires
        0 <= k < s.len(),
        s[k].id == id,
    ensures
        first_with_id(s, id, position_of(s, id)),
        position_of(s, id) <= k,
    decreases k,
{
    if exists|j: int| 0 <= j < k && s[j].id == id {
        let j = choose|j: int| 0 <= j < k && s[j].id == id;
        lemma_position_of(s, id, j);
    } else {
        assert(first_with_id(s, id, k));
        lemma_first_unique(s, id, k, position_of(s, id));
    }
}

/// There is one first position of an id.
pub proof fn lemma_first_unique(s: Seq<Task>, id: u64, a: int, b: int)
    requires
        first_with_id(s, id, a),
        first_with_id(s, id, b),
    ensures
        a == b,
{
    if a < b {
        assert(s[a].id != id);
    } else if b < a {
        assert(s[b].id != id);
    }
}

/// The position of the first task with the id, if any.
fn find_index(tasks: &Vec<Task>, id: u64) -> (r: Option<usize>)
    ensures
        r matches Some(k) ==> first_with_id(tasks@, id, k as int) && position_of(tasks@, id) == k,
        r is None ==> !has_id(tasks@, id),
{
    let n = tasks.len();
    let mut i: usize = 0;
    while i < n
        invariant
            n == tasks@.len(),
            i <= n,
            forall|j: int| 0 <= j < i ==> #[trigger] tasks@[j].id != id,
        decreases n - i,
    {
        if tasks[i].id == id {
            proof {
                lemma_position_of(tasks@, id, i as int);
                lemma_first_unique(tasks@, id, i as int, position_of(tasks@, id));
            }
            return Some(i);
        }
        i = i + 1;
    }
    None
}

/// Looks a task up by id: the first task with it, or `NotFound`.
pub fn find_task(data: &Data, task_id: u64) -> (r: Result<&Task, TodoError>)
    ensures
        r matches Ok(t) ==> has_id(data.tasks@, task_id) && *t == data.tasks@[position_of(data.tasks@, task_id)],
        r is Err ==> !has_id(data.tasks@, task_id) && r == Err::<&Task, TodoError>(TodoError::NotFound(task_id)),
{
    match find_index(&data.tasks, task_id) {
        Some(k) => Ok(&data.tasks[k]),
        None => Err(TodoError::NotFound(task_id)),
    }
}

/// The position of the first id of `ids` that belongs to no task, if any.
fn find_missing(tasks: &Vec<Task>, ids: &[u64]) -> (r: Option<usize>)
    ensures
        r matches Some(j) ==> first_missing(tasks@, ids@, j as int),
        r is None ==> all_present(tasks@, ids@),
{
    let n = ids.len();
    let mut j: usize = 0;
    while j < n
        invariant
            n == ids@.len(),
            j <= n,
            forall|i: int| 0 <= i < j ==> has_id(tasks@, #[trigger] ids@[i]),
        decreases n - j,
    {
        if find_index(tasks, ids[j]).is_none() {
            return Some(j);
        }
        j = j + 1;
    }
    None
}

// ---------------------------------------------------------------------------
// Messages
// ---------------------------------------------------------------------------

/// `prefix`, the id in decimal, then `suffix`.
pub open spec fn id_line(prefix: Seq<char>, id: u64, suffix: Seq<char>) -> Seq<char> {
    prefix + decimal(id as nat) + suffix
}

fn id_message(prefix: &str, id: u64, suffix: &str) -> (r: String)
    ensures
        r@ == id_line(prefix@, id, suffix@),
{
    let mut s = String::from_str(prefix);
    let n = decimal_text(id);
    s.append(n.as_str());
    s.append(suffix);
    s
}

/// "<prefix><id>: <text>", the message of a change to a task.
pub open spec fn change_line(prefix: Seq<char>, id: u64, text: Seq<char>) -> Seq<char> {
    id_line(prefix, id, ": "@) + text
}

fn change_message(prefix: &str, id: u64, text: &str) -> (r: String)
    ensures
        r@ == change_line(prefix@, id, text@),
{
    let mut s = id_message(prefix, id, ": ");
    s.append(text);
    s
}

// ---------------------------------------------------------------------------
// Adding
// ---------------------------------------------------------------------------

/// The due text to store for a given one: none where it is absent or blank,
/// else the text without surrounding white space.
pub open spec fn stored_due(due: Option<Seq<char>>) -> Option<Seq<char>> {
    match due {
        Some(d) => if trimmed(d).len() == 0 {
            None
        } else {
            Some(trimmed(d))
        },
        None => None,
    }
}

/// Whether a due text is refused: it is given, not blank, and reads as no moment.
pub open spec fn due_refused(due: Option<Seq<char>>) -> bool {
    stored_due(due) matches Some(d) && due_moment(d) is None
}

/// Whether an optional stored string holds the given characters.
pub open spec fn holds_due(stored: Option<String>, due: Option<Seq<char>>) -> bool {
    match due {
        Some(d) => stored matches Some(s) && s@ == d,
        None => stored is None,
    }
}

/// The view of an optional string argument.
pub open spec fn opt_view(s: Option<&str>) -> Option<Seq<char>> {
    match s {
        Some(x) => Some(x@),
        None => None,
    }
}

/// Checks and normalises a due text: blank means none; otherwise the trimmed
/// text, which must read as a due time.
fn normalise_due(due: Option<&str>) -> (r: Result<Option<String>, TodoError>)
    ensures
        due_refused(opt_view(due)) ==> r == Err::<Option<String>, TodoError>(TodoError::InvalidDue),
        !due_refused(opt_view(due)) ==> (r matches Ok(d) && holds_due(d, stored_due(opt_view(due)))),
{
    match due {
        None => Ok(None),
        Some(d) => {
            let t = trim(d);
            if t.unicode_len() == 0 {
                Ok(None)
            } else if crate::due::parse_due(t).is_none() {
                Err(TodoError::InvalidDue)
            } else {
                Ok(Some(String::from_str(t)))
            }
        },
    }
}

/// Checks the text and due time of a task to add, before anything is read:
/// the text must not be blank, and a due time that is not blank must read.
pub fn validate_add(text: &str, due: Option<&str>) -> (r: Result<(), TodoError>)
    ensures
        trimmed(text@).len() == 0 ==> r == Err::<(), TodoError>(TodoError::EmptyText),
        trimmed(text@).len() != 0 && due_refused(opt_view(due)) ==> r == Err::<(), TodoError>(TodoError::InvalidDue),
        trimmed(text@).len() != 0 && !due_refused(opt_view(due)) ==> r is Ok,
{
    if is_blank(text) {
        return Err(TodoError::EmptyText);
    }
    match normalise_due(due) {
        Ok(_) => Ok(()),
        Err(e) => Err(e),
    }
}

/// Whether `t` is the task that an add of `text`, `priority` and `due` on
/// created `created_at` makes with id `id`.
pub open spec fn added_task(
    t: Task,
    id: u64,
    text: Seq<char>,
    priority: Priority,
    due: Option<Seq<char>>,
    created_at: Seq<char>,
) -> bool {
    &&& t.id == id
    &&& t.text@ == trimmed(text)
    &&& t.priority == priority
    &&& t.status == Status::Pending
    &&& holds_due(t.due, stored_due(due))
    &&& t.created_at@ == created_at
}

/// Adds a task, created on `created_at`, with the next id. The text and the
/// due time are stored without surrounding white space; a blank due time
/// means none. Returns the message that reports it.
pub fn add_task(
    data: &mut Data,
    text: &str,
    priority: Priority,
    due: Option<&str>,
    created_at: String,
) -> (r: Result<String, TodoError>)
    requires
        trimmed(text@).len() != 0 && !due_refused(opt_view(due)) ==> old(data).next_id < u64::MAX,
    ensures
        trimmed(text@).len() == 0 ==> r == Err::<String, TodoError>(TodoError::EmptyText),
        trimmed(text@).len() != 0 && due_refused(opt_view(due)) ==> r == Err::<String, TodoError>(TodoError::InvalidDue),
        r is Err ==> *final(data) == *old(data),
        trimmed(text@).len() != 0 && !due_refused(opt_view(due)) ==> {
            &&& r matches Ok(m) && m@ == change_line("已添加任务 #"@, old(data).next_id, trimmed(text@))
            &&& final(data).next_id == old(data).next_id + 1
            &&& final(data).tasks@.len() == old(data).tasks@.len() + 1
            &&& final(data).tasks@.drop_last() == old(data).tasks@
            &&& added_task(final(data).tasks@.last(), old(data).next_id, text@, priority, opt_view(due), created_at@)
        },
        old(data).well_formed() && r is Ok ==> forall|k: int| 0 <= k < old(data).tasks@.len()
            ==> #[trigger] old(data).tasks@[k].id < final(data).tasks@.last().id,
        old(data).well_formed() ==> final(data).well_formed(),
{
    if is_blank(text) {
        return Err(TodoError::EmptyText);
    }
    let stored = match normalise_due(due) {
        Ok(d) => d,
        Err(e) => return Err(e),
    };
    let id = data.next_id;
    let body = String::from_str(trim(text));
    let msg = change_message("已添加任务 #", id, body.as_str());
    let task = Task {
        id,
        text: body,
        priority,
        status: Status::Pending,
        due: stored,
        created_at,
    };
    data.next_id = id + 1;
    data.tasks.push(task);
    proof {
        assert(data.tasks@.drop_last() =~= old(data).tasks@);
    }
    Ok(msg)
}

/// Adds a task created today, by the local clock.
pub fn cmd_add(data: &mut Data, text: &str, priority: Priority, due: Option<&str>) -> (r: Result<String, TodoError>)
    requires
        trimmed(text@).len() != 0 && !due_refused(opt_view(due)) ==> old(data).next_id < u64::MAX,
    ensures
        trimmed(text@).len() == 0 ==> r == Err::<String, TodoError>(TodoError::EmptyText),
        trimmed(text@).len() != 0 && due_refused(opt_view(due)) ==> r == Err::<String, TodoError>(TodoError::InvalidDue),
        r is Err ==> *final(data) == *old(data),
        trimmed(text@).len() != 0 && !due_refused(opt_view(due)) ==> {
            &&& r matches Ok(m) && m@ == change_line("已添加任务 #"@, old(data).next_id, trimmed(text@))
            &&& final(data).next_id == old(data).next_id + 1
            &&& final(data).tasks@.drop_last() == old(data).tasks@
            &&& final(data).tasks@.len() == old(data).tasks@.len() + 1
            &&& added_task(final(data).tasks@.last(), old(data).next_id, text@, priority, opt_view(due), final(data).tasks@.last().created_at@)
            &&& crate::due::is_date_text(final(data).tasks@.last().created_at@)
        },
        old(data).well_formed() ==> final(data).well_formed(),
{
    let today = crate::due::local_today();
    add_task(data, text, priority, due, today)
}

// ---------------------------------------------------------------------------
// Marking done and pending
// ---------------------------------------------------------------------------

/// The tasks after marking `ids` done: the first task of each listed id is
/// done; everything else is as it was.
pub open spec fn tasks_after_done(s: Seq<Task>, ids: Seq<u64>) -> Seq<Task> {
    Seq::new(
        s.len(),
        |k: int|
            if ids.contains(s[k].id) && first_of_its_id(s, k) {
                with_status(s[k], Status::Done)
            } else {
                s[k]
            },
    )
}

/// The message for the `j`-th id of a done request: the task was done
/// already (before, or by an earlier mention of the same id), or it is now.
pub open spec fn done_message(s: Seq<Task>, ids: Seq<u64>, j: int) -> Seq<char> {
    let id = ids[j];
    let t = s[position_of(s, id)];
    if t.status == Status::Done || ids.take(j).contains(id) {
        id_line("任务 #"@, id, " 已是完成状态。"@)
    } else {
        change_line("已完成任务 #"@, id, t.text@)
    }
}

/// Marks the tasks with the given ids done, and returns one message per id.
/// Where some id belongs to no task, nothing changes and the first such id is
/// reported. Marking a task that is done already changes nothing.
pub fn cmd_done(data: &mut Data, ids: &[u64]) -> (r: Result<Vec<String>, TodoError>)
    ensures
        final(data).next_id == old(data).next_id,
        all_present(old(data).tasks@, ids@) ==> {
            &&& r matches Ok(msgs) && msgs@.len() == ids@.len()
                && forall|j: int| 0 <= j < ids@.len() ==> #[trigger] msgs@[j]@ == done_message(old(data).tasks@, ids@, j)
            &&& final(data).tasks@ == tasks_after_done(old(data).tasks@, ids@)
        },
        !all_present(old(data).tasks@, ids@) ==> {
            &&& r matches Err(e) && exists|j: int| first_missing(old(data).tasks@, ids@, j) && e == TodoError::NotFound(#[trigger] ids@[j])
            &&& final(data).tasks@ == old(data).tasks@
        },
        old(data).well_formed() ==> final(data).well_formed(),
{
    if let Some(j) = find_missing(&data.tasks, ids) {
        return Err(TodoError::NotFound(ids[j]));
    }
    let ghost s = data.tasks@;
    let mut msgs: Vec<String> = Vec::new();
    let n = ids.len();
    proof {
        assert(tasks_after_done(s, ids@.take(0)) =~= s);
    }
    for j in 0..n
        invariant
            n == ids@.len(),
            s == old(data).tasks@,
            all_present(s, ids@),
            data.next_id == old(data).next_id,
            data.tasks@ == tasks_after_done(s, ids@.take(j as int)),
            msgs@.len() == j,
            forall|i: int| 0 <= i < j ==> #[trigger] msgs@[i]@ == done_message(s, ids@, i),
    {
        let id = ids[j];
        let ghost cur = data.tasks@;
        assert(has_id(s, ids@[j as int]));
        let ghost k0 = choose|k: int| 0 <= k < s.len() && #[trigger] s[k].id == id;
        proof {
            lemma_position_of(s, id, k0);
        }
        let ghost p = position_of(s, id);
        assert(cur[k0].id == id);
        let k = match find_index(&data.tasks, id) {
            Some(k) => k,
            None => {
                assert(false);
                return Err(TodoError::NotFound(id));
            },
        };
        assert(first_with_id(s, id, k as int)) by {
            assert forall|i: int| 0 <= i < k implies #[trigger] s[i].id != id by {
                assert(cur[i].id == s[i].id);
            }
        }
        proof {
            lemma_first_unique(s, id, k as int, p);
        }
        assert(ids@.take(j + 1) =~= ids@.take(j as int).push(id));
        if data.tasks[k].status == Status::Done {
            let m = id_message("任务 #", id, " 已是完成状态。");
            msgs.push(m);
            proof {
                assert(data.tasks@ =~= tasks_after_done(s, ids@.take(j + 1)));
            }
        } else {
            let m = change_message("已完成任务 #", id, data.tasks[k].text.as_str());
            msgs.push(m);
            let mut t = data.tasks[k].clone();
            t.status = Status::Done;
            assert(t == with_status(s[k as int], Status::Done));
            data.tasks.set(k, t);
            proof {
                let after = tasks_after_done(s, ids@.take(j + 1));
                assert(!ids@.take(j as int).contains(id));
                assert(cur[k as int] == s[k as int]);
                assert forall|i: int| 0 <= i < s.len() implies #[trigger] data.tasks@[i] == after[i] by {
                    if s[i].id == id {
                        if i != k {
                            assert(k < i);
                            assert(s[k as int].id == s[i].id);
                            assert(!first_of_its_id(s, i));
                            assert(data.tasks@[i] == cur[i]);
                            assert(cur[i] == s[i]);
                        } else {
                            assert(first_of_its_id(s, i));
                            assert(ids@.take(j + 1).contains(id)) by {
                                assert(ids@.take(j + 1)[j as int] == id);
                            }
                        }
                    } else {
                        assert(ids@.take(j + 1).contains(s[i].id) == ids@.take(j as int).contains(s[i].id)) by {
                            if ids@.take(j + 1).contains(s[i].id) {
                                let q = choose|q: int| 0 <= q < j + 1 && #[trigger] ids@.take(j + 1)[q] == s[i].id;
                                assert(ids@.take(j as int)[q] == s[i].id);
                            }
                        }
                    }
                }
                assert(data.tasks@ =~= after);
            }
        }
    }
    proof {
        assert(ids@.take(n as int) =~= ids@);
    }
    Ok(msgs)
}

/// The tasks after marking the task with `id` pending again.
pub open spec fn tasks_after_undo(s: Seq<Task>, id: u64) -> Seq<Task> {
    if has_id(s, id) {
        s.update(position_of(s, id), with_status(s[position_of(s, id)], Status::Pending))
    } else {
        s
    }
}

/// The message of an undo of `id` that succeeds.
pub open spec fn undo_message(s: Seq<Task>, id: u64) -> Seq<char> {
    let t = s[position_of(s, id)];
    if t.status == Status::Pending {
        id_line("任务 #"@, id, " 已是待办状态。"@)
    } else {
        change_line("已恢复任务 #"@, id, t.text@)
    }
}

/// Marks the task with the id pending again.
pub fn cmd_undo(data: &mut Data, task_id: u64) -> (r: Result<String, TodoError>)
    ensures
        final(data).next_id == old(data).next_id,
        final(data).tasks@ == tasks_after_undo(old(data).tasks@, task_id),
        has_id(old(data).tasks@, task_id) ==> (r matches Ok(m) && m@ == undo_message(old(data).tasks@, task_id)),
        !has_id(old(data).tasks@, task_id) ==> r == Err::<String, TodoError>(TodoError::NotFound(task_id)),
        old(data).well_formed() ==> final(data).well_formed(),
{
    let k = match find_index(&data.tasks, task_id) {
        Some(k) => k,
        None => return Err(TodoError::NotFound(task_id)),
    };
    if data.tasks[k].status == Status::Pending {
        proof {
            assert(data.tasks@ =~= tasks_after_undo(old(data).tasks@, task_id));
        }
        Ok(id_message("任务 #", task_id, " 已是待办状态。"))
    } else {
        let m = change_message("已恢复任务 #", task_id, data.tasks[k].text.as_str());
        let mut t = data.tasks[k].clone();
        t.status = Status::Pending;
        data.tasks.set(k, t);
        Ok(m)
    }
}

// ---------------------------------------------------------------------------
// Deleting
// ---------------------------------------------------------------------------

/// The tasks that remain after deleting `ids`: all others, in their order.
pub open spec fn tasks_without(s: Seq<Task>, ids: Seq<u64>) -> Seq<Task> {
    s.filter(|t: Task| !ids.contains(t.id))
}

/// The ids in the order of their first mention, each once.
pub open spec fn first_mentions(ids: Seq<u64>) -> Seq<u64>
    decreases ids.len(),
{
    if ids.len() == 0 {
        ids
    } else {
        let d = first_mentions(ids.drop_last());
        if d.contains(ids.last()) {
            d
        } else {
            d.push(ids.last())
        }
    }
}

/// The message for deleting the task with `id`.
pub open spec fn delete_message(s: Seq<Task>, id: u64) -> Seq<char> {
    change_line("已删除任务 #"@, id, s[position_of(s, id)].text@)
}

/// Deletes the tasks with the given ids, and returns one message per id, in
/// the order of first mention (an id named twice is deleted and reported
/// once). Where some id belongs to no task, nothing changes and the first
/// such id is reported. The ids of deleted tasks are not given again.
pub fn cmd_delete(data: &mut Data, ids: &[u64]) -> (r: Result<Vec<String>, TodoError>)
    ensures
        final(data).next_id == old(data).next_id,
        all_present(old(data).tasks@, ids@) ==> {
            &&& r matches Ok(msgs) && msgs@.len() == first_mentions(ids@).len()
                && forall|j: int| 0 <= j < msgs@.len() ==> #[trigger] msgs@[j]@ == delete_message(old(data).tasks@, first_mentions(ids@)[j])
            &&& final(data).tasks@ == tasks_without(old(data).tasks@, ids@)
        },
        !all_present(old(data).tasks@, ids@) ==> {
            &&& r matches Err(e) && exists|j: int| first_missing(old(data).tasks@, ids@, j) && e == TodoError::NotFound(#[trigger] ids@[j])
            &&& final(data).tasks@ == old(data).tasks@
        },
        old(data).well_formed() ==> final(data).well_formed(),
{
    if let Some(j) = find_missing(&data.tasks, ids) {
        return Err(TodoError::NotFound(ids[j]));
    }
    let ghost s = data.tasks@;
    let n = ids.len();
    let mut uniq: Vec<u64> = Vec::new();
    proof {
        assert(ids@.take(0) =~= Seq::<u64>::empty());
    }
    for i in 0..n
        invariant
            n == ids@.len(),
            s == data.tasks@,
            all_present(s, ids@),
            uniq@ == first_mentions(ids@.take(i as int)),
            forall|k: int| 0 <= k < uniq@.len() ==> has_id(s, #[trigger] uniq@[k]),
    {
        proof {
            assert(ids@.take(i + 1).drop_last() =~= ids@.take(i as int));
            assert(has_id(s, ids@[i as int]));
        }
        if !id_listed(uniq.as_slice(), ids[i]) {
            uniq.push(ids[i]);
        }
    }
    proof {
        assert(ids@.take(n as int) =~= ids@);
    }
    let m = uniq.len();
    let mut msgs: Vec<String> = Vec::new();
    for j in 0..m
        invariant
            m == uniq@.len(),
            s == data.tasks@,
            forall|k: int| 0 <= k < uniq@.len() ==> has_id(s, #[trigger] uniq@[k]),
            msgs@.len() == j,
            forall|i: int| 0 <= i < j ==> #[trigger] msgs@[i]@ == delete_message(s, uniq@[i]),
    {
        let id = uniq[j];
        assert(has_id(s, uniq@[j as int]));
        let k = match find_index(&data.tasks, id) {
            Some(k) => k,
            None => {
                assert(false);
                return Err(TodoError::NotFound(id));
            },
        };
        let msg = change_message("已删除任务 #", id, data.tasks[k].text.as_str());
        msgs.push(msg);
    }
    let ghost pred = |t: Task| !ids@.contains(t.id);
    let mut kept: Vec<Task> = Vec::new();
    let len = data.tasks.len();
    proof {
        reveal_with_fuel(Seq::<_>::filter, 1);
        assert(s.take(0) =~= Seq::<Task>::empty());
    }
    for i in 0..len
        invariant
            len == s.len(),
            s == data.tasks@,
            pred == (|t: Task| !ids@.contains(t.id)),
            kept@ == s.take(i as int).filter(pred),
    {
        proof {
            reveal_with_fuel(Seq::<_>::filter, 1);
            assert(s.take(i + 1).drop_last() =~= s.take(i as int));
        }
        let listed = id_listed(ids, data.tasks[i].id);
        if !listed {
            kept.push(data.tasks[i].clone());
        }
    }
    proof {
        assert(s.take(len as int) =~= s);
    }
    data.tasks = kept;
    proof {
        if old(data).well_formed() {
            lemma_filter_keeps_well_formed(s, ids@, data.next_id);
        }
    }
    Ok(msgs)
}

/// Whether `id` is one of `ids`.
fn id_listed(ids: &[u64], id: u64) -> (r: bool)
    ensures
        r == ids@.contains(id),
{
    let n = ids.len();
    for q in 0..n
        invariant
            n == ids@.len(),
            !ids@.take(q as int).contains(id),
    {
        assert(ids@.take(q + 1) =~= ids@.take(q as int).push(ids@[q as int]));
        if ids[q] == id {
            assert(ids@[q as int] == id);
            return true;
        }
    }
    assert(ids@.take(n as int) =~= ids@);
    false
}

/// Removing tasks keeps every remaining id distinct and below the bound.
pub proof fn lemma_filter_keeps_well_formed(s: Seq<Task>, ids: Seq<u64>, bound: u64)
    requires
        forall|k: int| 0 <= k < s.len() ==> #[trigger] s[k].id < bound,
        forall|a: int, b: int| 0 <= a < s.len() && 0 <= b < s.len() && a != b ==> #[trigger] s[a].id != #[trigger] s[b].id,
    ensures
        ({
            let f = tasks_without(s, ids);
            &&& forall|k: int| 0 <= k < f.len() ==> #[trigger] f[k].id < bound
            &&& forall|a: int, b: int| 0 <= a < f.len() && 0 <= b < f.len() && a != b ==> #[trigger] f[a].id != #[trigger] f[b].id
        }),
    decreases s.len(),
{
    reveal_with_fuel(Seq::<_>::filter, 1);
    if s.len() > 0 {
        let p = s.drop_last();
        lemma_filter_keeps_well_formed(p, ids, bound);
        let fp = tasks_without(p, ids);
        let f = tasks_without(s, ids);
        if !ids.contains(s.last().id) {
            assert(f == fp.push(s.last()));
            assert forall|a: int| 0 <= a < fp.len() implies #[trigger] fp[a].id != s.last().id by {
                lemma_filter_member(p, ids, a);
                let q = choose|q: int| 0 <= q < p.len() && p[q] == fp[a];
                assert(s[q] == p[q]);
            }
        }
    }
}

/// Each kept task is one of the original tasks.
pub proof fn lemma_filter_member(s: Seq<Task>, ids: Seq<u64>, a: int)
    requires
        0 <= a < tasks_without(s, ids).len(),
    ensures
        exists|q: int| 0 <= q < s.len() && s[q] == tasks_without(s, ids)[a],
{
    let f = tasks_without(s, ids);
    assert(f.contains(f[a]));
    s.lemma_filter_contains_rev(|t: Task| !ids.contains(t.id), f[a]);
}

// ---------------------------------------------------------------------------
// Editing
// ---------------------------------------------------------------------------

/// The view of an optional optional string argument.
pub open spec fn opt_opt_view(s: Option<Option<&str>>) -> Option<Option<Seq<char>>> {
    match s {
        Some(x) => Some(opt_view(x)),
        None => None,
    }
}

/// Why an edit is refused, if it is: nothing to change, no such task, a
/// blank text, or a due time that does not read (checked in that order).
pub open spec fn edit_refusal(
    s: Seq<Task>,
    id: u64,
    text: Option<Seq<char>>,
    priority: Option<Priority>,
    due: Option<Option<Seq<char>>>,
) -> Option<TodoError> {
    if text is None && priority is None && due is None {
        Some(TodoError::NothingToEdit)
    } else if !has_id(s, id) {
        Some(TodoError::NotFound(id))
    } else if text matches Some(t) && trimmed(t).len() == 0 {
        Some(TodoError::EmptyText)
    } else if due matches Some(d) && due_refused(d) {
        Some(TodoError::InvalidDue)
    } else {
        None
    }
}

/// Whether `new` is `old` edited: a given text replaces the old one
/// (trimmed), a given priority replaces the old one, and a given due time
/// replaces the old one (blank or absent meaning none); the rest stays.
pub open spec fn edited(
    old: Task,
    new: Task,
    text: Option<Seq<char>>,
    priority: Option<Priority>,
    due: Option<Option<Seq<char>>>,
) -> bool {
    &&& new.id == old.id
    &&& new.status == old.status
    &&& new.created_at == old.created_at
    &&& new.text@ == (match text {
        Some(t) => trimmed(t),
        None => old.text@,
    })
    &&& new.priority == (match priority {
        Some(q) => q,
        None => old.priority,
    })
    &&& match due {
        Some(d) => holds_due(new.due, stored_due(d)),
        None => new.due == old.due,
    }
}

/// Edits the text, priority or due time of the task with the id; `Some(None)`
/// as the due time removes it. Returns the message that reports the edit.
pub fn cmd_edit(
    data: &mut Data,
    task_id: u64,
    new_text: Option<&str>,
    new_priority: Option<Priority>,
    new_due: Option<Option<&str>>,
) -> (r: Result<String, TodoError>)
    ensures
        final(data).next_id == old(data).next_id,
        edit_refusal(old(data).tasks@, task_id, opt_view(new_text), new_priority, opt_opt_view(new_due)) matches Some(e)
            ==> r == Err::<String, TodoError>(e) && final(data).tasks@ == old(data).tasks@,
        edit_refusal(old(data).tasks@, task_id, opt_view(new_text), new_priority, opt_opt_view(new_due)) is None ==> {
            let k = position_of(old(data).tasks@, task_id);
            &&& final(data).tasks@.len() == old(data).tasks@.len()
            &&& forall|i: int| 0 <= i < old(data).tasks@.len() && i != k ==> #[trigger] final(data).tasks@[i] == old(data).tasks@[i]
            &&& edited(old(data).tasks@[k], final(data).tasks@[k], opt_view(new_text), new_priority, opt_opt_view(new_due))
            &&& r matches Ok(m) && m@ == change_line("已更新任务 #"@, task_id, final(data).tasks@[k].text@)
        },
        old(data).well_formed() ==> final(data).well_formed(),
{
    if new_text.is_none() && new_priority.is_none() && new_due.is_none() {
        return Err(TodoError::NothingToEdit);
    }
    let k = match find_index(&data.tasks, task_id) {
        Some(k) => k,
        None => return Err(TodoError::NotFound(task_id)),
    };
    let mut t = data.tasks[k].clone();
    if let Some(x) = new_text {
        if is_blank(x) {
            return Err(TodoError::EmptyText);
        }
        t.text = String::from_str(trim(x));
    }
    if let Some(p) = new_priority {
        t.priority = p;
    }
    if let Some(d) = new_due {
        t.due = match normalise_due(d) {
            Ok(v) => v,
            Err(e) => return Err(e),
        };
    }
    let m = change_message("已更新任务 #", task_id, t.text.as_str());
    data.tasks.set(k, t);
    Ok(m)
}

} // verus!

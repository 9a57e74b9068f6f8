use vstd::prelude::*;
use vstd::arithmetic::div_mod::{lemma_fundamental_div_mod, lemma_fundamental_div_mod_converse, lemma_mod_pos_bound};

use crate::model::{Data, Priority, SortBy, Status, Task};
use crate::ops::{
    first_of_its_id, first_with_id, has_id, lemma_first_unique, lemma_position_of, position_of,
    tasks_after_done, tasks_after_undo, tasks_without, done_message, id_line, edited, added_task, stored_due, first_mentions,
};
use crate::query::{
    due_key, is_permutation, key_before, lemma_key_order, same_key, selection, selected, sorted_stably,
};
use crate::report::{done_count, overdue_count, pending_count};
use crate::due::{year_text, zero_padded, date_text, chrono_date, chrono_date_time, lemma_moment_order, moment_before, overdue_at, Moment};
use crate::text::{decimal, repeat_seq, digit_char, seq_less, trimmed, occurs_in, ascii_case_twins, ascii_lowered, is_ascii_text, lowercase, lowers_ascii, same_ignoring_ascii_case};

verus! {

/// Marking tasks done is idempotent: marking the same ids done a second
/// time changes nothing, and reports every id as done already.
pub proof fn law_done_idempotent(s: Seq<Task>, ids: Seq<u64>)
    ensures
        tasks_after_done(tasks_after_done(s, ids), ids) == tasks_after_done(s, ids),
        forall|j: int| 0 <= j < ids.len() && has_id(s, ids[j]) ==>
            #[trigger] done_message(tasks_after_done(s, ids), ids, j) == id_line("任务 #"@, ids[j], " 已是完成状态。"@),
{
    let d = tasks_after_done(s, ids);
    assert forall|j: int| 0 <= j < s.len() implies #[trigger] d[j].id == s[j].id by {}
    assert forall|k: int| 0 <= k < s.len() implies #[trigger] first_of_its_id(d, k) == first_of_its_id(s, k) by {
        if first_of_its_id(s, k) {
            assert forall|j: int| 0 <= j < k implies #[trigger] d[j].id != d[k].id by {
                assert(s[j].id != s[k].id);
            }
        }
        if first_of_its_id(d, k) {
            assert forall|j: int| 0 <= j < k implies #[trigger] s[j].id != s[k].id by {
                assert(d[j].id != d[k].id);
            }
        }
    }
    assert(tasks_after_done(d, ids) =~= d);
    assert forall|j: int| 0 <= j < ids.len() && has_id(s, ids[j]) implies
        #[trigger] done_message(d, ids, j) == id_line("任务 #"@, ids[j], " 已是完成状态。"@) by {
        let id = ids[j];
        let k0 = choose|k: int| 0 <= k < s.len() && #[trigger] s[k].id == id;
        lemma_position_of(s, id, k0);
        let p = position_of(s, id);
        assert(d[k0].id == id);
        lemma_position_of(d, id, k0);
        let q = position_of(d, id);
        assert(first_with_id(s, id, q)) by {
            assert forall|i: int| 0 <= i < q implies #[trigger] s[i].id != id by {
                assert(d[i].id == s[i].id);
            }
        }
        lemma_first_unique(s, id, p, q);
        assert(ids.contains(id));
        assert(first_of_its_id(s, p));
    }
}

/// Marking a pending task done and then pending again gives back the list
/// as it was.
pub proof fn law_undo_reverts_done(s: Seq<Task>, id: u64)
    requires
        has_id(s, id),
        s[position_of(s, id)].status == Status::Pending,
    ensures
        tasks_after_undo(tasks_after_done(s, seq![id]), id) == s,
{
    let k0 = choose|k: int| 0 <= k < s.len() && #[trigger] s[k].id == id;
    lemma_position_of(s, id, k0);
    let p = position_of(s, id);
    let d = tasks_after_done(s, seq![id]);
    assert(seq![id].contains(id)) by {
        assert(seq![id][0] == id);
    }
    assert(d[k0].id == id);
    lemma_position_of(d, id, k0);
    let q = position_of(d, id);
    assert(first_with_id(s, id, q)) by {
        assert forall|i: int| 0 <= i < q implies #[trigger] s[i].id != id by {
            assert(d[i].id == s[i].id);
        }
    }
    lemma_first_unique(s, id, p, q);
    assert forall|k: int| 0 <= k < s.len() && k != p implies #[trigger] d[k] == s[k] by {
        if seq![id].contains(s[k].id) {
            let w = choose|w: int| 0 <= w < 1 && #[trigger] seq![id][w] == s[k].id;
            assert(s[k].id == id);
            if first_of_its_id(s, k) {
                assert(first_with_id(s, id, k));
                lemma_first_unique(s, id, p, k);
            }
        }
    }
    assert(first_of_its_id(s, p));
    assert(tasks_after_undo(d, id) =~= s);
}

/// A deleted id is gone: no remaining task has it, and every task whose id
/// was not named remains.
pub proof fn law_deleted_ids_gone(s: Seq<Task>, ids: Seq<u64>)
    ensures
        forall|k: int| 0 <= k < tasks_without(s, ids).len() ==> !ids.contains(#[trigger] tasks_without(s, ids)[k].id),
        forall|k: int| 0 <= k < s.len() && !ids.contains(s[k].id) ==> tasks_without(s, ids).contains(#[trigger] s[k]),
{
    broadcast use vstd::seq_lib::group_filter_ensures;
}

/// Ids are not given twice: in a well-formed list, every id in use (and so
/// every id of a task deleted since) lies below the id the next added task
/// gets, and deleting leaves that next id unchanged.
pub proof fn law_ids_not_reused(data: Data, ids: Seq<u64>, x: u64)
    requires
        data.well_formed(),
        has_id(data.tasks@, x),
    ensures
        x < data.next_id,
        forall|k: int| 0 <= k < tasks_without(data.tasks@, ids).len() ==> #[trigger] tasks_without(data.tasks@, ids)[k].id < data.next_id,
{
    let k = choose|k: int| 0 <= k < data.tasks@.len() && #[trigger] data.tasks@[k].id == x;
    assert(data.tasks@[k].id < data.next_id);
    let f = tasks_without(data.tasks@, ids);
    assert forall|k: int| 0 <= k < f.len() implies #[trigger] f[k].id < data.next_id by {
        crate::ops::lemma_filter_member(data.tasks@, ids, k);
    }
}

/// Reading back an added task: in a well-formed list, the task added with
/// the next id is the one found by that id.
pub proof fn law_added_task_found(data: Data, t: Task)
    requires
        data.well_formed(),
        t.id == data.next_id,
    ensures
        has_id(data.tasks@.push(t), t.id),
        data.tasks@.push(t)[position_of(data.tasks@.push(t), t.id)] == t,
{
    let s = data.tasks@.push(t);
    let n = data.tasks@.len() as int;
    assert(s[n].id == t.id);
    lemma_position_of(s, t.id, n);
    let p = position_of(s, t.id);
    if p < n {
        assert(data.tasks@[p].id < data.next_id);
    }
}

/// Pending tasks always come first in a sorted list.
pub proof fn law_pending_first(sort: SortBy, input: Seq<Task>, out: Seq<Task>, p: Seq<int>)
    requires
        sorted_stably(sort, input, out, p),
    ensures
        forall|a: int, b: int| 0 <= a < b < out.len() && #[trigger] out[b].status == Status::Pending
            ==> #[trigger] out[a].status == Status::Pending,
{
    assert forall|a: int, b: int| 0 <= a < b < out.len() && #[trigger] out[b].status == Status::Pending
        implies #[trigger] out[a].status == Status::Pending by {
        assert(!key_before(sort, out[b], out[a]));
    }
}

/// Sorted by due time, tasks without a due time come after the tasks of the
/// same status that have one, and due texts that do not read come after
/// those that do.
pub proof fn law_no_due_last(input: Seq<Task>, out: Seq<Task>, p: Seq<int>)
    requires
        sorted_stably(SortBy::Due, input, out, p),
    ensures
        forall|a: int, b: int| 0 <= a < b < out.len() && #[trigger] out[a].status == #[trigger] out[b].status
            && out[a].due is None ==> out[b].due is None,
        forall|a: int, b: int| 0 <= a < b < out.len() && #[trigger] out[a].status == #[trigger] out[b].status
            && due_key(out[a]) is None ==> due_key(out[b]) is None,
{
    assert forall|a: int, b: int| 0 <= a < b < out.len() && #[trigger] out[a].status == #[trigger] out[b].status
        && out[a].due is None implies out[b].due is None by {
        assert(!key_before(SortBy::Due, out[b], out[a]));
    }
    assert forall|a: int, b: int| 0 <= a < b < out.len() && #[trigger] out[a].status == #[trigger] out[b].status
        && due_key(out[a]) is None implies due_key(out[b]) is None by {
        assert(!key_before(SortBy::Due, out[b], out[a]));
    }
}

/// Search ignores letter case: two keywords with the same lower-case form
/// select the same tasks.
pub proof fn law_search_case_insensitive(s: Seq<Task>, status: Option<Status>, k1: Seq<char>, k2: Seq<char>)
    requires
        lowercase(k1) == lowercase(k2),
    ensures
        selection(s, status, Some(k1)) == selection(s, status, Some(k2)),
{
    let f1 = |t: Task| selected(t, status, Some(k1));
    let f2 = |t: Task| selected(t, status, Some(k2));
    assert(f1 =~= f2);
}

/// Search ignores the letter case of ASCII keywords: two ASCII keywords
/// that differ only in the case of A to Z select the same tasks (given what
/// a search with each keyword establishes of its lower-case form).
pub proof fn law_search_ignores_ascii_case(s: Seq<Task>, status: Option<Status>, k1: Seq<char>, k2: Seq<char>)
    requires
        is_ascii_text(k1),
        is_ascii_text(k2),
        lowers_ascii(k1),
        lowers_ascii(k2),
        same_ignoring_ascii_case(k1, k2),
    ensures
        selection(s, status, Some(k1)) == selection(s, status, Some(k2)),
{
    assert forall|i: int| 0 <= i < k1.len() implies #[trigger] lowercase(k1)[i] == lowercase(k2)[i] by {
        assert(ascii_case_twins(k1[i], k2[i]));
        assert(ascii_lowered(k1[i], lowercase(k1)[i]));
        assert(ascii_lowered(k2[i], lowercase(k2)[i]));
    }
    assert(lowercase(k1) =~= lowercase(k2));
    law_search_case_insensitive(s, status, k1, k2);
}

/// Every selected task has the status asked for.
pub proof fn law_selection_has_status(s: Seq<Task>, status: Status, keyword: Option<Seq<char>>)
    ensures
        forall|k: int| 0 <= k < selection(s, Some(status), keyword).len()
            ==> #[trigger] selection(s, Some(status), keyword)[k].status == status,
{
    broadcast use vstd::seq_lib::group_filter_ensures;
}

/// The statistics add up: done and pending tasks make up the total, the
/// pending tasks split by priority, and no more tasks are overdue than pending.
pub proof fn law_stats_add_up(s: Seq<Task>, now: Moment)
    ensures
        done_count(s) <= s.len(),
        pending_count(s, Priority::High) + pending_count(s, Priority::Medium) + pending_count(s, Priority::Low)
            == s.len() - done_count(s),
        overdue_count(s, now) <= s.len() - done_count(s),
    decreases s.len(),
{
    reveal_with_fuel(Seq::<_>::filter, 1);
    if s.len() > 0 {
        law_stats_add_up(s.drop_last(), now);
    }
}

} // verus!

verus! {

// ---------------------------------------------------------------------------
// The sorted list is unique
// ---------------------------------------------------------------------------

/// A permutation of `0..n` takes every value of `0..n`.
pub proof fn lemma_permutation_onto(p: Seq<int>, n: nat, v: int)
    requires
        is_permutation(p, n),
        0 <= v < n,
    ensures
        exists|k: int| 0 <= k < n && p[k] == v,
{
    broadcast use vstd::seq_lib::seq_to_set_is_finite;
    assert(p.no_duplicates()) by {
        assert forall|i: int, j: int| 0 <= i < p.len() && 0 <= j < p.len() && i != j implies p[i] != p[j] by {}
    }
    p.unique_seq_to_set();
    vstd::set_lib::lemma_int_range(0, n as int);
    let range = vstd::set_lib::set_int_range(0, n as int);
    assert(p.to_set().subset_of(range)) by {
        assert forall|x: int| #[trigger] p.to_set().contains(x) implies range.contains(x) by {
            let k = choose|k: int| 0 <= k < p.len() && p[k] == x;
            assert(0 <= p[k] < n);
        }
    }
    vstd::set_lib::lemma_subset_equality(p.to_set(), range);
    assert(range.contains(v));
    assert(p.to_set().contains(v));
}

/// Whether the element `x` from input position `i` goes before the element
/// `y` from input position `j` in a stable sort.
pub open spec fn placed_before(sort: SortBy, x: Task, i: int, y: Task, j: int) -> bool {
    key_before(sort, x, y) || (same_key(sort, x, y) && i < j)
}

/// In a stable sort, each element goes before every later one.
pub proof fn lemma_sorted_placed(sort: SortBy, input: Seq<Task>, out: Seq<Task>, p: Seq<int>, a: int, b: int)
    requires
        sorted_stably(sort, input, out, p),
        0 <= a < b < out.len(),
    ensures
        placed_before(sort, out[a], p[a], out[b], p[b]),
{
    lemma_key_order(sort, out[a], out[b], out[a]);
}

/// No element goes both before and after another.
pub proof fn lemma_placed_asymmetric(sort: SortBy, x: Task, i: int, y: Task, j: int)
    requires
        placed_before(sort, x, i, y, j),
    ensures
        !placed_before(sort, y, j, x, i),
{
    lemma_key_order(sort, x, y, x);
    lemma_key_order(sort, y, x, y);
    lemma_key_order(sort, x, y, y);
    lemma_key_order(sort, y, x, x);
}

proof fn lemma_sorted_prefix_equal(
    sort: SortBy,
    input: Seq<Task>,
    o1: Seq<Task>,
    p1: Seq<int>,
    o2: Seq<Task>,
    p2: Seq<int>,
    k: int,
)
    requires
        sorted_stably(sort, input, o1, p1),
        sorted_stably(sort, input, o2, p2),
        0 <= k < input.len(),
    ensures
        forall|j: int| 0 <= j <= k ==> #[trigger] p1[j] == p2[j],
    decreases k,
{
    if k > 0 {
        lemma_sorted_prefix_equal(sort, input, o1, p1, o2, p2, k - 1);
    }
    let n = input.len();
    if p1[k] != p2[k] {
        let i = p1[k];
        let j = p2[k];
        lemma_permutation_onto(p2, n, i);
        let m = choose|m: int| 0 <= m < n && p2[m] == i;
        lemma_permutation_onto(p1, n, j);
        let m1 = choose|m: int| 0 <= m < n && p1[m] == j;
        if m < k {
            assert(p1[m] == p2[m]);
        }
        if m1 < k {
            assert(p1[m1] == p2[m1]);
        }
        assert(m > k && m1 > k);
        lemma_sorted_placed(sort, input, o1, p1, k, m1);
        lemma_sorted_placed(sort, input, o2, p2, k, m);
        assert(o1[k] == input[i] && o1[m1] == input[j]);
        assert(o2[k] == input[j] && o2[m] == input[i]);
        lemma_placed_asymmetric(sort, input[i], i, input[j], j);
    }
}

/// The stable sort of a list is unique: any two stable sorts of the same
/// input are the same list, from the same positions.
pub proof fn law_sort_unique(sort: SortBy, input: Seq<Task>, o1: Seq<Task>, p1: Seq<int>, o2: Seq<Task>, p2: Seq<int>)
    requires
        sorted_stably(sort, input, o1, p1),
        sorted_stably(sort, input, o2, p2),
    ensures
        o1 == o2,
        p1 == p2,
{
    if input.len() > 0 {
        lemma_sorted_prefix_equal(sort, input, o1, p1, o2, p2, input.len() - 1);
    }
    assert(p1 =~= p2);
    assert(o1 =~= o2);
}

/// Sorting a sorted list again changes nothing.
pub proof fn law_sort_idempotent(sort: SortBy, input: Seq<Task>, o: Seq<Task>, p: Seq<int>, o2: Seq<Task>, p2: Seq<int>)
    requires
        sorted_stably(sort, input, o, p),
        sorted_stably(sort, o, o2, p2),
    ensures
        o2 == o,
{
    let id = Seq::new(o.len(), |i: int| i);
    assert(sorted_stably(sort, o, o, id));
    law_sort_unique(sort, o, o, id, o2, p2);
}

/// Where the ids are distinct, the sorted list does not depend on the order
/// of the input: sorting the same tasks given in another order gives the
/// same list.
pub proof fn law_sort_order_independent(
    sort: SortBy,
    in1: Seq<Task>,
    in2: Seq<Task>,
    r: Seq<int>,
    o1: Seq<Task>,
    p1: Seq<int>,
    o2: Seq<Task>,
    p2: Seq<int>,
)
    requires
        is_permutation(r, in1.len()),
        in2.len() == in1.len(),
        forall|k: int| 0 <= k < in2.len() ==> #[trigger] in2[k] == in1[r[k]],
        forall|a: int, b: int| 0 <= a < in1.len() && 0 <= b < in1.len() && a != b ==> #[trigger] in1[a].id != #[trigger] in1[b].id,
        sorted_stably(sort, in1, o1, p1),
        sorted_stably(sort, in2, o2, p2),
    ensures
        o1 == o2,
{
    let n = in1.len();
    let q = Seq::new(n, |k: int| r[p2[k]]);
    assert forall|k: int| 0 <= k < n implies 0 <= #[trigger] q[k] < n by {
        assert(0 <= p2[k] < n);
    }
    assert forall|a: int, b: int| 0 <= a < n && 0 <= b < n && a != b implies #[trigger] q[a] != #[trigger] q[b] by {
        assert(p2[a] != p2[b]);
    }
    assert forall|k: int| 0 <= k < o2.len() implies #[trigger] o2[k] == in1[q[k]] by {
        assert(o2[k] == in2[p2[k]]);
    }
    assert forall|a: int, b: int|
        0 <= a < b < o2.len() && same_key(sort, #[trigger] o2[a], #[trigger] o2[b]) implies q[a] < q[b] by {
        assert(o2[a] == in1[q[a]] && o2[b] == in1[q[b]]);
        assert(q[a] != q[b]);
    }
    assert(sorted_stably(sort, in1, o2, q));
    law_sort_unique(sort, in1, o1, p1, o2, q);
}

} // verus!

verus! {

// ---------------------------------------------------------------------------
// The full list is the pending list, then the done list
// ---------------------------------------------------------------------------

/// The positions in `s` of the elements that `f` keeps, in order.
pub open spec fn kept_positions(s: Seq<Task>, f: spec_fn(Task) -> bool) -> Seq<int>
    decreases s.len(),
{
    if s.len() == 0 {
        Seq::empty()
    } else {
        let r = kept_positions(s.drop_last(), f);
        if f(s.last()) {
            r.push(s.len() - 1)
        } else {
            r
        }
    }
}

/// The kept positions lead, in increasing order, to the filtered elements.
pub proof fn lemma_kept_positions(s: Seq<Task>, f: spec_fn(Task) -> bool)
    ensures
        kept_positions(s, f).len() == s.filter(f).len(),
        forall|k: int| 0 <= k < s.filter(f).len() ==> 0 <= #[trigger] kept_positions(s, f)[k] < s.len()
            && s[kept_positions(s, f)[k]] == s.filter(f)[k],
        forall|a: int, b: int| 0 <= a < b < s.filter(f).len() ==> #[trigger] kept_positions(s, f)[a] < #[trigger] kept_positions(s, f)[b],
    decreases s.len(),
{
    reveal_with_fuel(Seq::<_>::filter, 1);
    if s.len() > 0 {
        lemma_kept_positions(s.drop_last(), f);
    }
}

/// Keeping everything keeps the list as it is.
pub proof fn lemma_keep_all(s: Seq<Task>)
    ensures
        selection(s, None, None) == s,
    decreases s.len(),
{
    reveal_with_fuel(Seq::<_>::filter, 1);
    if s.len() > 0 {
        lemma_keep_all(s.drop_last());
        assert(s.drop_last().push(s.last()) =~= s);
    }
}

/// The pending and the done tasks together are all tasks.
pub proof fn lemma_status_split(s: Seq<Task>)
    ensures
        selection(s, Some(Status::Pending), None).len() + selection(s, Some(Status::Done), None).len() == s.len(),
    decreases s.len(),
{
    reveal_with_fuel(Seq::<_>::filter, 1);
    if s.len() > 0 {
        lemma_status_split(s.drop_last());
    }
}

/// The sorted list of all tasks is the sorted list of the pending tasks
/// followed by the sorted list of the done tasks.
pub proof fn law_list_is_pending_then_done(
    sort: SortBy,
    s: Seq<Task>,
    all: Seq<Task>,
    pa: Seq<int>,
    pend: Seq<Task>,
    pp: Seq<int>,
    done: Seq<Task>,
    pd: Seq<int>,
)
    requires
        sorted_stably(sort, selection(s, None, None), all, pa),
        sorted_stably(sort, selection(s, Some(Status::Pending), None), pend, pp),
        sorted_stably(sort, selection(s, Some(Status::Done), None), done, pd),
    ensures
        all == pend + done,
        all.len() == s.len(),
{
    broadcast use vstd::seq_lib::group_filter_ensures;
    let fp = |t: Task| selected(t, Some(Status::Pending), None);
    let fd = |t: Task| selected(t, Some(Status::Done), None);
    let sp = selection(s, Some(Status::Pending), None);
    let sd = selection(s, Some(Status::Done), None);
    assert(sp == s.filter(fp));
    assert(sd == s.filter(fd));
    lemma_keep_all(s);
    lemma_status_split(s);
    lemma_kept_positions(s, fp);
    lemma_kept_positions(s, fd);
    let kp = kept_positions(s, fp);
    let kd = kept_positions(s, fd);
    let np = pend.len();
    let n = s.len();
    let both = pend + done;
    let q = Seq::new(n, |k: int| if k < np { kp[pp[k]] } else { kd[pd[k - np]] });
    assert forall|k: int| 0 <= k < np implies #[trigger] pend[k].status == Status::Pending && s[q[k]] == pend[k] by {
        assert(0 <= pp[k] < sp.len());
        assert(pend[k] == sp[pp[k]]);
        assert(fp(sp[pp[k]]));
    }
    assert forall|k: int| np <= k < n implies #[trigger] both[k].status == Status::Done && s[q[k]] == both[k] by {
        assert(0 <= pd[k - np] < sd.len());
        assert(both[k] == done[k - np]);
        assert(done[k - np] == sd[pd[k - np]]);
        assert(fd(sd[pd[k - np]]));
    }
    assert forall|k: int| 0 <= k < n implies 0 <= #[trigger] q[k] < n by {
        if k < np {
            assert(0 <= pp[k] < sp.len());
        } else {
            assert(0 <= pd[k - np] < sd.len());
        }
    }
    assert forall|a: int, b: int| 0 <= a < n && 0 <= b < n && a != b implies #[trigger] q[a] != #[trigger] q[b] by {
        if a < np && b < np {
            assert(pp[a] != pp[b]);
            assert(0 <= pp[a] < sp.len() && 0 <= pp[b] < sp.len());
            if pp[a] < pp[b] {
                assert(kp[pp[a]] < kp[pp[b]]);
            } else {
                assert(kp[pp[b]] < kp[pp[a]]);
            }
        } else if a >= np && b >= np {
            assert(pd[a - np] != pd[b - np]);
            assert(0 <= pd[a - np] < sd.len() && 0 <= pd[b - np] < sd.len());
            if pd[a - np] < pd[b - np] {
                assert(kd[pd[a - np]] < kd[pd[b - np]]);
            } else {
                assert(kd[pd[b - np]] < kd[pd[a - np]]);
            }
        } else if a < np {
            assert(both[a] == pend[a]);
            assert(s[q[a]].status != s[q[b]].status);
        } else {
            assert(both[b] == pend[b]);
            assert(s[q[a]].status != s[q[b]].status);
        }
    }
    assert forall|k: int| 0 <= k < both.len() implies #[trigger] both[k] == s[q[k]] by {
        if k < np {
            assert(both[k] == pend[k]);
        }
    }
    assert forall|a: int, b: int| 0 <= a < b < both.len() implies !key_before(sort, #[trigger] both[b], #[trigger] both[a]) by {
        if b < np {
            assert(both[a] == pend[a] && both[b] == pend[b]);
        } else if a >= np {
            assert(both[a] == done[a - np] && both[b] == done[b - np]);
        } else {
            assert(both[a] == pend[a]);
        }
    }
    assert forall|a: int, b: int|
        0 <= a < b < both.len() && same_key(sort, #[trigger] both[a], #[trigger] both[b]) implies q[a] < q[b] by {
        if b < np {
            assert(both[a] == pend[a] && both[b] == pend[b]);
            assert(pp[a] < pp[b]);
            assert(0 <= pp[a] < sp.len() && 0 <= pp[b] < sp.len());
            assert(kp[pp[a]] < kp[pp[b]]);
        } else if a >= np {
            assert(both[a] == done[a - np] && both[b] == done[b - np]);
            assert(pd[a - np] < pd[b - np]);
            assert(0 <= pd[a - np] < sd.len() && 0 <= pd[b - np] < sd.len());
            assert(kd[pd[a - np]] < kd[pd[b - np]]);
        } else {
            assert(both[a] == pend[a]);
        }
    }
    assert(sorted_stably(sort, s, both, q));
    law_sort_unique(sort, s, all, pa, both, q);
}

} // verus!

verus! {

// ---------------------------------------------------------------------------
// What each sort key puts first
// ---------------------------------------------------------------------------

/// Whatever the key, a pending task sorts before a done one.
pub proof fn law_pending_before_done(sort: SortBy, a: Task, b: Task)
    requires
        a.status == Status::Pending,
        b.status == Status::Done,
    ensures
        key_before(sort, a, b),
        !key_before(sort, b, a),
{
}

/// Of two tasks with the same status, sorting by priority puts the more
/// urgent first: High before Medium and Low, Medium before Low. Tasks of
/// equal priority go by id, the smaller first.
pub proof fn law_priority_order(a: Task, b: Task)
    requires
        a.status == b.status,
    ensures
        a.priority == Priority::High && b.priority != Priority::High ==> key_before(SortBy::Priority, a, b),
        a.priority == Priority::Medium && b.priority == Priority::Low ==> key_before(SortBy::Priority, a, b),
        a.priority == Priority::Low && b.priority != Priority::Low ==> !key_before(SortBy::Priority, a, b),
        a.priority == Priority::Medium && b.priority == Priority::High ==> !key_before(SortBy::Priority, a, b),
        a.priority == b.priority ==> (key_before(SortBy::Priority, a, b) <==> a.id < b.id),
{
}

/// In a list sorted by priority, among tasks of the same status no less
/// urgent task stands before a more urgent one, and tasks of equal priority
/// stand in the order of their ids.
pub proof fn law_sorted_by_priority(input: Seq<Task>, out: Seq<Task>, p: Seq<int>)
    requires
        sorted_stably(SortBy::Priority, input, out, p),
    ensures
        forall|a: int, b: int| 0 <= a < b < out.len() && #[trigger] out[a].status == #[trigger] out[b].status ==> {
            &&& !(out[a].priority == Priority::Low && out[b].priority != Priority::Low)
            &&& !(out[a].priority == Priority::Medium && out[b].priority == Priority::High)
            &&& (out[a].priority == out[b].priority ==> out[a].id <= out[b].id)
        },
{
    assert forall|a: int, b: int| 0 <= a < b < out.len() && #[trigger] out[a].status == #[trigger] out[b].status implies {
        &&& !(out[a].priority == Priority::Low && out[b].priority != Priority::Low)
        &&& !(out[a].priority == Priority::Medium && out[b].priority == Priority::High)
        &&& (out[a].priority == out[b].priority ==> out[a].id <= out[b].id)
    } by {
        assert(!key_before(SortBy::Priority, out[b], out[a]));
        law_priority_order(out[b], out[a]);
    }
}

/// Of two tasks with the same status, sorting by due time puts the one due
/// earlier first, and a task with a due time that reads before one without a
/// due time.
pub proof fn law_due_order(a: Task, b: Task)
    requires
        a.status == b.status,
    ensures
        (due_key(a) matches Some(x) && due_key(b) matches Some(y) && moment_before(x, y))
            ==> key_before(SortBy::Due, a, b) && !key_before(SortBy::Due, b, a),
        a.due is Some && b.due is None ==> key_before(SortBy::Due, a, b) && !key_before(SortBy::Due, b, a),
        due_key(a) is Some && b.due is Some && due_key(b) is None
            ==> key_before(SortBy::Due, a, b) && !key_before(SortBy::Due, b, a),
{
    if due_key(a) is Some && due_key(b) is Some {
        lemma_moment_order(due_key(a)->0, due_key(b)->0, due_key(a)->0);
        lemma_moment_order(due_key(b)->0, due_key(a)->0, due_key(b)->0);
    }
}

// ---------------------------------------------------------------------------
// What a search and a status filter select
// ---------------------------------------------------------------------------

/// Without a status filter the keyword alone decides a search: a task of the
/// list is found exactly when its lower-cased text contains the lower-cased
/// keyword, whether it is pending or done.
pub proof fn law_search_ignores_status(s: Seq<Task>, keyword: Seq<char>, t: Task)
    ensures
        selection(s, None, Some(keyword)).contains(t)
            <==> s.contains(t) && occurs_in(lowercase(keyword), lowercase(t.text@)),
{
    broadcast use vstd::seq_lib::group_filter_ensures;
    let f = |x: Task| selected(x, None, Some(keyword));
    if selection(s, None, Some(keyword)).contains(t) {
        s.lemma_filter_contains_rev(f, t);
        let k = choose|k: int| 0 <= k < s.filter(f).len() && s.filter(f)[k] == t;
        assert(f(s.filter(f)[k]));
    }
    if s.contains(t) && occurs_in(lowercase(keyword), lowercase(t.text@)) {
        let k = choose|k: int| 0 <= k < s.len() && s[k] == t;
        assert(f(s[k]));
    }
}

/// A status filter keeps exactly the tasks of that status that the keyword
/// (if any) selects; with no keyword, exactly the tasks of that status.
pub proof fn law_status_filter(s: Seq<Task>, status: Status, keyword: Option<Seq<char>>, t: Task)
    ensures
        selection(s, Some(status), keyword).contains(t) <==> s.contains(t) && t.status == status
            && selection(s, None, keyword).contains(t),
        selection(s, Some(status), None).contains(t) <==> s.contains(t) && t.status == status,
        selection(s, None, None) == s,
{
    broadcast use vstd::seq_lib::group_filter_ensures;
    let f = |x: Task| selected(x, Some(status), keyword);
    let g = |x: Task| selected(x, None, keyword);
    let h = |x: Task| selected(x, Some(status), None);
    if s.filter(f).contains(t) {
        s.lemma_filter_contains_rev(f, t);
        let k = choose|k: int| 0 <= k < s.filter(f).len() && s.filter(f)[k] == t;
        assert(f(s.filter(f)[k]));
        let j = choose|j: int| 0 <= j < s.len() && s[j] == t;
        assert(g(s[j]));
    }
    if s.filter(g).contains(t) && t.status == status {
        s.lemma_filter_contains_rev(g, t);
        let k = choose|k: int| 0 <= k < s.filter(g).len() && s.filter(g)[k] == t;
        assert(g(s.filter(g)[k]));
        let j = choose|j: int| 0 <= j < s.len() && s[j] == t;
        assert(f(s[j]));
    }
    if s.filter(h).contains(t) {
        s.lemma_filter_contains_rev(h, t);
        let k = choose|k: int| 0 <= k < s.filter(h).len() && s.filter(h)[k] == t;
        assert(h(s.filter(h)[k]));
    }
    if s.contains(t) && t.status == status {
        let j = choose|j: int| 0 <= j < s.len() && s[j] == t;
        assert(h(s[j]));
    }
    lemma_keep_all(s);
}

} // verus!

verus! {

// ---------------------------------------------------------------------------
// Moments and overdue tasks
// ---------------------------------------------------------------------------

/// Whether a moment's fields lie in the ranges of a calendar reading: month
/// up to 12, day up to 31, hour below 24, minute and second below 60, and
/// nanosecond below two billion (a leap second is held as a fraction of a
/// billion or more).
pub open spec fn moment_in_range(m: Moment) -> bool {
    &&& m.month <= 12
    &&& m.day <= 31
    &&& m.hour < 24
    &&& m.minute < 60
    &&& m.second < 60
    &&& m.nanosecond < 2_000_000_000
}

/// A moment as one number that grows with time: each field counts in units
/// larger than all smaller fields together can reach.
pub open spec fn moment_count(m: Moment) -> int {
    ((((((m.year as int) * 13 + m.month) * 32 + m.day) * 24 + m.hour) * 60 + m.minute) * 60 + m.second)
        * 2_000_000_000 + m.nanosecond
}

/// Comparing `hi * r + lo` with `lo` below `r` compares `hi` first, then `lo`.
#[verifier::spinoff_prover]
proof fn lemma_radix_order(ha: int, la: int, hb: int, lb: int, r: int)
    requires
        0 <= la < r,
        0 <= lb < r,
    ensures
        (ha * r + la < hb * r + lb) <==> (ha < hb || (ha == hb && la < lb)),
        (ha * r + la == hb * r + lb) <==> (ha == hb && la == lb),
{
    if ha < hb {
        assert(ha * r + r <= hb * r) by (nonlinear_arith)
            requires ha < hb, 0 < r;
    } else if hb < ha {
        assert(hb * r + r <= ha * r) by (nonlinear_arith)
            requires hb < ha, 0 < r;
    }
}

/// Moments lie in time order. Whatever the smaller fields, an earlier year
/// lies before a later one; with the same year an earlier month lies before
/// a later one, whatever the days; and so on down to the nanosecond. For
/// moments in calendar range, one lies before another exactly when its
/// count is smaller.
#[verifier::spinoff_prover]
pub proof fn law_moment_chronological(a: Moment, b: Moment)
    ensures
        a.year < b.year ==> moment_before(a, b),
        a.year == b.year && a.month < b.month ==> moment_before(a, b),
        a.year == b.year && a.month == b.month && a.day < b.day ==> moment_before(a, b),
        a.year == b.year && a.month == b.month && a.day == b.day && a.hour < b.hour ==> moment_before(a, b),
        a.year == b.year && a.month == b.month && a.day == b.day && a.hour == b.hour && a.minute < b.minute
            ==> moment_before(a, b),
        a.year == b.year && a.month == b.month && a.day == b.day && a.hour == b.hour && a.minute == b.minute
            && a.second < b.second ==> moment_before(a, b),
        a.year == b.year && a.month == b.month && a.day == b.day && a.hour == b.hour && a.minute == b.minute
            && a.second == b.second && a.nanosecond < b.nanosecond ==> moment_before(a, b),
        !moment_before(a, a),
        moment_before(a, b) ==> !moment_before(b, a),
        moment_in_range(a) && moment_in_range(b) ==> (moment_before(a, b) <==> moment_count(a) < moment_count(b)),
{
    if moment_in_range(a) && moment_in_range(b) {
        let ya = a.year as int;
        let yb = b.year as int;
        let c1a = ya * 13 + a.month;
        let c1b = yb * 13 + b.month;
        lemma_radix_order(ya, a.month as int, yb, b.month as int, 13);
        let c2a = c1a * 32 + a.day;
        let c2b = c1b * 32 + b.day;
        lemma_radix_order(c1a, a.day as int, c1b, b.day as int, 32);
        let c3a = c2a * 24 + a.hour;
        let c3b = c2b * 24 + b.hour;
        lemma_radix_order(c2a, a.hour as int, c2b, b.hour as int, 24);
        let c4a = c3a * 60 + a.minute;
        let c4b = c3b * 60 + b.minute;
        lemma_radix_order(c3a, a.minute as int, c3b, b.minute as int, 60);
        let c5a = c4a * 60 + a.second;
        let c5b = c4b * 60 + b.second;
        lemma_radix_order(c4a, a.second as int, c4b, b.second as int, 60);
        lemma_radix_order(c5a, a.nanosecond as int, c5b, b.nanosecond as int, 2_000_000_000);
    }
}

/// A task is overdue only while pending and only with a due time that
/// reads; a pending task due at a moment in calendar range is overdue at a
/// moment `now` in range exactly when its due moment's count is below that
/// of `now`.
pub proof fn law_overdue_chronological(t: Task, now: Moment)
    ensures
        t.status == Status::Done ==> !overdue_at(t, now),
        due_key(t) is None ==> !overdue_at(t, now),
        t.status == Status::Pending ==> (due_key(t) matches Some(m) ==> (moment_in_range(m) && moment_in_range(now)
            ==> (overdue_at(t, now) <==> moment_count(m) < moment_count(now)))),
{
    if due_key(t) is Some {
        law_moment_chronological(due_key(t)->0, now);
    }
}

/// A due text that is a date alone is due at the end of that day: a pending
/// task due so is not overdue at any whole second of that day, and is overdue
/// on every later day of the same month.
pub proof fn law_date_due_at_end_of_day(t: Task, now: Moment, y: i32, m: u32, d: u32)
    requires
        t.status == Status::Pending,
        t.due matches Some(s) && chrono_date_time(s@) is None && chrono_date(s@) == Some((y, m, d)),
        now.year == y,
        now.month == m,
        moment_in_range(now),
    ensures
        now.day == d && now.nanosecond == 0 ==> !overdue_at(t, now),
        now.day > d ==> overdue_at(t, now),
{
    law_moment_chronological(due_key(t)->0, now);
}

} // verus!

verus! {

// ---------------------------------------------------------------------------
// Editing, marking done and undoing
// ---------------------------------------------------------------------------

/// An edit changes only what it is given: a given text (trimmed) or
/// priority replaces the old one, and a given due time replaces the old one
/// (an absent or blank one removes it); a text, priority or due time that is
/// not given stays as it was, and the id, status and creation date never
/// change.
pub proof fn law_edit_changes_only_given(
    before_edit: Task,
    after_edit: Task,
    text: Option<Seq<char>>,
    priority: Option<Priority>,
    due: Option<Option<Seq<char>>>,
)
    requires
        edited(before_edit, after_edit, text, priority, due),
    ensures
        after_edit.id == before_edit.id,
        after_edit.status == before_edit.status,
        after_edit.created_at@ == before_edit.created_at@,
        text is None ==> after_edit.text@ == before_edit.text@,
        text matches Some(x) ==> after_edit.text@ == trimmed(x),
        priority is None ==> after_edit.priority == before_edit.priority,
        priority matches Some(q) ==> after_edit.priority == q,
        due is None ==> after_edit.due == before_edit.due,
        due == Some(None::<Seq<char>>) ==> after_edit.due is None,
        due matches Some(Some(d)) ==> (trimmed(d).len() == 0 ==> after_edit.due is None),
        due matches Some(Some(d)) ==> (trimmed(d).len() != 0 ==> (after_edit.due matches Some(x) && x@ == trimmed(d))),
{
}

/// Lists whose tasks carry the same ids, position by position, find an id
/// at the same place.
proof fn lemma_same_ids_same_position(s: Seq<Task>, t: Seq<Task>, id: u64)
    requires
        s.len() == t.len(),
        forall|i: int| 0 <= i < s.len() ==> #[trigger] s[i].id == t[i].id,
        has_id(s, id),
    ensures
        has_id(t, id),
        first_with_id(s, id, position_of(s, id)),
        position_of(t, id) == position_of(s, id),
{
    let k0 = choose|k: int| 0 <= k < s.len() && #[trigger] s[k].id == id;
    lemma_position_of(s, id, k0);
    let p = position_of(s, id);
    assert(t[k0].id == id);
    lemma_position_of(t, id, k0);
    let q = position_of(t, id);
    assert(first_with_id(s, id, q)) by {
        assert forall|i: int| 0 <= i < q implies #[trigger] s[i].id != id by {
            assert(t[i].id == s[i].id);
        }
    }
    lemma_first_unique(s, id, p, q);
}

/// Undo puts the task with the id back to pending and changes nothing else:
/// the list keeps its length and its other tasks, and of that task only the
/// status changes; the id is then found at the same place, pending. Undo of
/// a task that is pending already, or of an id that no task has, leaves the
/// list as it is.
pub proof fn law_undo_makes_pending(s: Seq<Task>, id: u64)
    ensures
        tasks_after_undo(s, id).len() == s.len(),
        !has_id(s, id) ==> tasks_after_undo(s, id) == s,
        has_id(s, id) ==> ({
            let k = position_of(s, id);
            let u = tasks_after_undo(s, id);
            &&& 0 <= k < s.len()
            &&& s[k].id == id
            &&& u[k].status == Status::Pending
            &&& u[k].id == s[k].id
            &&& u[k].text@ == s[k].text@
            &&& u[k].priority == s[k].priority
            &&& u[k].due == s[k].due
            &&& u[k].created_at@ == s[k].created_at@
            &&& forall|i: int| 0 <= i < s.len() && i != k ==> #[trigger] u[i] == s[i]
            &&& has_id(u, id)
            &&& position_of(u, id) == k
            &&& u[position_of(u, id)].status == Status::Pending
        }),
        has_id(s, id) && s[position_of(s, id)].status == Status::Pending ==> tasks_after_undo(s, id) == s,
{
    if has_id(s, id) {
        let u = tasks_after_undo(s, id);
        let k0 = choose|k: int| 0 <= k < s.len() && #[trigger] s[k].id == id;
        lemma_position_of(s, id, k0);
        let k = position_of(s, id);
        assert forall|i: int| 0 <= i < s.len() implies #[trigger] s[i].id == u[i].id by {}
        lemma_same_ids_same_position(s, u, id);
        if s[k].status == Status::Pending {
            assert(u =~= s);
        }
    }
}

/// Marking ids done leaves the list's length, and every task whose id is not
/// listed, as they were; the task found by each listed id is then done, at
/// the same place, with nothing but its status changed.
pub proof fn law_done_marks_done(s: Seq<Task>, ids: Seq<u64>)
    ensures
        tasks_after_done(s, ids).len() == s.len(),
        forall|k: int| 0 <= k < s.len() && !ids.contains(s[k].id) ==> #[trigger] tasks_after_done(s, ids)[k] == s[k],
        forall|j: int| 0 <= j < ids.len() && has_id(s, #[trigger] ids[j]) ==> {
            let d = tasks_after_done(s, ids);
            let k = position_of(s, ids[j]);
            &&& has_id(d, ids[j])
            &&& position_of(d, ids[j]) == k
            &&& d[k].status == Status::Done
            &&& d[k].id == s[k].id
            &&& d[k].text@ == s[k].text@
            &&& d[k].priority == s[k].priority
            &&& d[k].due == s[k].due
            &&& d[k].created_at@ == s[k].created_at@
        },
{
    let d = tasks_after_done(s, ids);
    assert forall|i: int| 0 <= i < s.len() implies #[trigger] s[i].id == d[i].id by {}
    assert forall|j: int| 0 <= j < ids.len() && has_id(s, #[trigger] ids[j]) implies {
        let k = position_of(s, ids[j]);
        &&& has_id(d, ids[j])
        &&& position_of(d, ids[j]) == k
        &&& d[k].status == Status::Done
        &&& d[k].id == s[k].id
        &&& d[k].text@ == s[k].text@
        &&& d[k].priority == s[k].priority
        &&& d[k].due == s[k].due
        &&& d[k].created_at@ == s[k].created_at@
    } by {
        let id = ids[j];
        lemma_same_ids_same_position(s, d, id);
        let k = position_of(s, id);
        assert(ids.contains(id));
        assert(first_of_its_id(s, k));
    }
}

} // verus!

verus! {

// ---------------------------------------------------------------------------
// Creation dates sort oldest first
// ---------------------------------------------------------------------------

/// Ten to the power `w`.
pub open spec fn pow10(w: nat) -> nat
    decreases w,
{
    if w == 0 { 1 } else { 10 * pow10((w - 1) as nat) }
}

/// `n` written with exactly `w` decimal digits, most significant first
/// (all of `n` where `n` is below ten to the power `w`).
pub open spec fn fixed_digits(n: nat, w: nat) -> Seq<char>
    decreases w,
{
    if w == 0 {
        Seq::empty()
    } else {
        seq![digit_char(n / pow10((w - 1) as nat))] + fixed_digits(n % pow10((w - 1) as nat), (w - 1) as nat)
    }
}

/// A digit's character code is that of '0' plus the digit.
proof fn lemma_digit_code(d: nat)
    requires
        d < 10,
    ensures
        digit_char(d) as int == 48 + d,
{
}

/// Fixed-width digit strings compare, as text, as their numbers do.
#[verifier::spinoff_prover]
proof fn lemma_fixed_digits_order(a: nat, b: nat, w: nat)
    requires
        a < pow10(w),
        b < pow10(w),
    ensures
        fixed_digits(a, w).len() == w,
        seq_less(fixed_digits(a, w), fixed_digits(b, w)) <==> a < b,
        fixed_digits(a, w) == fixed_digits(b, w) <==> a == b,
    decreases w,
{
    if w > 0 {
        let p = pow10((w - 1) as nat);
        assert(p > 0) by {
            lemma_pow10_positive((w - 1) as nat);
        }
        let qa = a / p;
        let ra = a % p;
        let qb = b / p;
        let rb = b % p;
        assert(a == qa * p + ra && 0 <= ra < p) by (nonlinear_arith)
            requires p > 0, qa == a / p, ra == a % p;
        assert(b == qb * p + rb && 0 <= rb < p) by (nonlinear_arith)
            requires p > 0, qb == b / p, rb == b % p;
        assert(qa < 10) by (nonlinear_arith)
            requires a == qa * p + ra, 0 <= ra, a < 10 * p, p > 0;
        assert(qb < 10) by (nonlinear_arith)
            requires b == qb * p + rb, 0 <= rb, b < 10 * p, p > 0;
        lemma_fixed_digits_order(ra as nat, rb as nat, (w - 1) as nat);
        lemma_digit_code(qa as nat);
        lemma_digit_code(qb as nat);
        lemma_radix_order(qa as int, ra as int, qb as int, rb as int, p as int);
        let fa = fixed_digits(a, w);
        let fb = fixed_digits(b, w);
        let ta = fixed_digits(ra as nat, (w - 1) as nat);
        let tb = fixed_digits(rb as nat, (w - 1) as nat);
        assert(fa.drop_first() =~= ta);
        assert(fb.drop_first() =~= tb);
        assert(fa[0] == digit_char(qa as nat));
        assert(fb[0] == digit_char(qb as nat));
        if fa == fb {
            assert(fa[0] == fb[0]);
        }
        if qa == qb && ra == rb {
            assert(fa =~= fb);
        }
    }
}

/// Powers of ten are positive.
proof fn lemma_pow10_positive(w: nat)
    ensures
        pow10(w) > 0,
    decreases w,
{
    if w > 0 {
        lemma_pow10_positive((w - 1) as nat);
    }
}

} // verus!

verus! {

/// The decimal digits of a number below ten thousand, from the last: each
/// quotient and remainder by ten, and what dividing by 10, 100 and 1000
/// leaves.
#[verifier::spinoff_prover]
proof fn lemma_four_digits(n: nat, a: int, b: int, c: int, r0: int, r1: int, r2: int)
    requires
        n < 10000,
        a == n / 10,
        r0 == n % 10,
        b == a / 10,
        r1 == a % 10,
        c == b / 10,
        r2 == b % 10,
    ensures
        0 <= r0 < 10,
        0 <= r1 < 10,
        0 <= r2 < 10,
        0 <= c < 10,
        n < 1000 ==> c == 0,
        n < 100 ==> b == 0,
        n < 10 ==> a == 0,
        n / 100 == b,
        n / 1000 == c,
        n % 100 == 10 * r1 + r0,
        n % 1000 == 100 * r2 + 10 * r1 + r0,
        (n % 100) / 10 == r1,
        (n % 100) % 10 == r0,
        (n % 1000) / 100 == r2,
        (n % 1000) % 100 == n % 100,
        (n % 10) / 1 == r0,
{
    lemma_fundamental_div_mod(n as int, 10);
    lemma_fundamental_div_mod(a, 10);
    lemma_fundamental_div_mod(b, 10);
    lemma_mod_pos_bound(n as int, 10);
    lemma_mod_pos_bound(a, 10);
    lemma_mod_pos_bound(b, 10);
    assert(n == 1000 * c + (100 * r2 + 10 * r1 + r0));
    assert(0 <= a);
    assert(0 <= b);
    assert(0 <= c);
    lemma_fundamental_div_mod_converse(n as int, 100, b, 10 * r1 + r0);
    lemma_fundamental_div_mod_converse(n as int, 1000, c, 100 * r2 + 10 * r1 + r0);
    lemma_fundamental_div_mod_converse(10 * r1 + r0, 10, r1, r0);
    lemma_fundamental_div_mod_converse(100 * r2 + 10 * r1 + r0, 100, r2, 10 * r1 + r0);
    lemma_fundamental_div_mod_converse(r0, 1, r0, 0);
}

/// Two digits, zero-padded, are the two-digit form of the number.
#[verifier::spinoff_prover]
proof fn lemma_zero_padded_two(n: nat)
    requires
        n < 100,
    ensures
        zero_padded(n, 2) == fixed_digits(n, 2),
{
    reveal_strlit("0");
    reveal_with_fuel(decimal, 2);
    reveal_with_fuel(fixed_digits, 3);
    reveal_with_fuel(repeat_seq, 2);
    reveal_with_fuel(pow10, 2);
    let a = n / 10;
    let r0 = n % 10;
    lemma_four_digits(n, a as int, (a / 10) as int, (a / 10 / 10) as int, r0 as int, (a % 10) as int, (a / 10 % 10) as int);
    let f = fixed_digits(n, 2);
    assert(f.len() == 2);
    assert(f[0] == digit_char(a));
    assert(f[1] == digit_char(r0));
    if n < 10 {
        assert(zero_padded(n, 2) =~= f);
    } else {
        assert(decimal(n) =~= seq![digit_char(a), digit_char(r0)]);
        assert(zero_padded(n, 2) =~= f);
    }
}

/// Four digits, zero-padded, are the four-digit form of the number.
#[verifier::spinoff_prover]
proof fn lemma_zero_padded_four(n: nat)
    requires
        n < 10000,
    ensures
        zero_padded(n, 4) == fixed_digits(n, 4),
{
    reveal_strlit("0");
    reveal_with_fuel(decimal, 4);
    reveal_with_fuel(fixed_digits, 5);
    reveal_with_fuel(repeat_seq, 4);
    reveal_with_fuel(pow10, 4);
    let a = n / 10;
    let b = a / 10;
    let c = b / 10;
    let r0 = n % 10;
    let r1 = a % 10;
    let r2 = b % 10;
    lemma_four_digits(n, a as int, b as int, c as int, r0 as int, r1 as int, r2 as int);
    let f = fixed_digits(n, 4);
    assert(f.len() == 4);
    assert(f[0] == digit_char(c));
    assert(f[1] == digit_char(r2));
    assert(f[2] == digit_char(r1));
    assert(f[3] == digit_char(r0));
    if n < 10 {
        assert(decimal(n) =~= seq![digit_char(r0)]);
        assert(zero_padded(n, 4) =~= f);
    } else if n < 100 {
        assert(decimal(n) =~= seq![digit_char(r1), digit_char(r0)]);
        assert(zero_padded(n, 4) =~= f);
    } else if n < 1000 {
        assert(decimal(a) =~= seq![digit_char(r2), digit_char(r1)]);
        assert(decimal(n) =~= seq![digit_char(r2), digit_char(r1), digit_char(r0)]);
        assert(zero_padded(n, 4) =~= f);
    } else {
        assert(decimal(b) =~= seq![digit_char(c), digit_char(r2)]);
        assert(decimal(a) =~= seq![digit_char(c), digit_char(r2), digit_char(r1)]);
        assert(decimal(n) =~= seq![digit_char(c), digit_char(r2), digit_char(r1), digit_char(r0)]);
        assert(zero_padded(n, 4) =~= f);
    }
}

} // verus!

verus! {

/// Texts that begin with parts of equal length compare by those parts
/// first, and by the rest where the parts are the same.
#[verifier::spinoff_prover]
proof fn lemma_seq_less_concat(x: Seq<char>, y: Seq<char>, x2: Seq<char>, y2: Seq<char>)
    requires
        x.len() == x2.len(),
    ensures
        seq_less(x + y, x2 + y2) == (if x == x2 { seq_less(y, y2) } else { seq_less(x, x2) }),
    decreases x.len(),
{
    if x.len() == 0 {
        assert(x + y =~= y);
        assert(x2 + y2 =~= y2);
        assert(x =~= x2);
    } else {
        assert((x + y).drop_first() =~= x.drop_first() + y);
        assert((x2 + y2).drop_first() =~= x2.drop_first() + y2);
        lemma_seq_less_concat(x.drop_first(), y, x2.drop_first(), y2);
        assert((x + y)[0] == x[0]);
        assert((x2 + y2)[0] == x2[0]);
        if x[0] == x2[0] {
            if x.drop_first() == x2.drop_first() {
                assert(x =~= x2) by {
                    assert forall|i: int| 0 <= i < x.len() implies x[i] == x2[i] by {
                        if i > 0 {
                            assert(x[i] == x.drop_first()[i - 1]);
                            assert(x2[i] == x2.drop_first()[i - 1]);
                        }
                    }
                }
            } else {
                assert(x != x2);
            }
        } else {
            assert(x != x2);
        }
    }
}

/// Texts made of three parts with a separator between them, where the
/// parts have equal lengths, compare part by part.
#[verifier::spinoff_prover]
proof fn lemma_three_parts(sep: Seq<char>, a1: Seq<char>, b1: Seq<char>, c1: Seq<char>, a2: Seq<char>, b2: Seq<char>, c2: Seq<char>)
    requires
        a1.len() == a2.len(),
        b1.len() == b2.len(),
        c1.len() == c2.len(),
    ensures
        seq_less(a1 + sep + b1 + sep + c1, a2 + sep + b2 + sep + c2) == (if a1 != a2 {
            seq_less(a1, a2)
        } else if b1 != b2 {
            seq_less(b1, b2)
        } else {
            seq_less(c1, c2)
        }),
        (a1 + sep + b1 + sep + c1 == a2 + sep + b2 + sep + c2) <==> (a1 == a2 && b1 == b2 && c1 == c2),
{
    let t1 = a1 + sep + b1 + sep + c1;
    let t2 = a2 + sep + b2 + sep + c2;
    let r1 = sep + (b1 + (sep + c1));
    let r2 = sep + (b2 + (sep + c2));
    assert(t1 =~= a1 + r1);
    assert(t2 =~= a2 + r2);
    lemma_seq_less_concat(a1, r1, a2, r2);
    lemma_seq_less_concat(sep, b1 + (sep + c1), sep, b2 + (sep + c2));
    lemma_seq_less_concat(b1, sep + c1, b2, sep + c2);
    lemma_seq_less_concat(sep, c1, sep, c2);
    let n = a1.len() as int;
    let m = b1.len() as int;
    let k = sep.len() as int;
    if t1 == t2 {
        assert(t1.subrange(0, n) =~= a1);
        assert(t2.subrange(0, n) =~= a2);
        assert(t1.subrange(n + k, n + k + m) =~= b1);
        assert(t2.subrange(n + k, n + k + m) =~= b2);
        assert(t1.subrange(n + k + m + k, t1.len() as int) =~= c1);
        assert(t2.subrange(n + k + m + k, t2.len() as int) =~= c2);
    }
}

/// Calendar dates written as "%Y-%m-%d" writes them (years 0 to 9999)
/// compare as text as they lie in time: the earlier date comes first, and
/// two texts are the same exactly when the dates are.
#[verifier::spinoff_prover]
pub proof fn law_date_text_order(y1: int, m1: nat, d1: nat, y2: int, m2: nat, d2: nat)
    requires
        0 <= y1 <= 9999,
        0 <= y2 <= 9999,
        m1 < 100,
        m2 < 100,
        d1 < 100,
        d2 < 100,
    ensures
        seq_less(date_text(y1, m1, d1), date_text(y2, m2, d2))
            <==> (y1 < y2 || (y1 == y2 && (m1 < m2 || (m1 == m2 && d1 < d2)))),
        date_text(y1, m1, d1) == date_text(y2, m2, d2) <==> (y1 == y2 && m1 == m2 && d1 == d2),
{
    assert(pow10(4) == 10000 && pow10(2) == 100) by {
        reveal_with_fuel(pow10, 5);
    }
    lemma_zero_padded_four(y1 as nat);
    lemma_zero_padded_four(y2 as nat);
    lemma_zero_padded_two(m1);
    lemma_zero_padded_two(m2);
    lemma_zero_padded_two(d1);
    lemma_zero_padded_two(d2);
    lemma_fixed_digits_order(y1 as nat, y2 as nat, 4);
    lemma_fixed_digits_order(y2 as nat, y1 as nat, 4);
    lemma_fixed_digits_order(m1, m2, 2);
    lemma_fixed_digits_order(m2, m1, 2);
    lemma_fixed_digits_order(d1, d2, 2);
    lemma_fixed_digits_order(d2, d1, 2);
    assert(year_text(y1) == zero_padded(y1 as nat, 4));
    assert(year_text(y2) == zero_padded(y2 as nat, 4));
    lemma_three_parts(
        "-"@,
        zero_padded(y1 as nat, 4),
        zero_padded(m1, 2),
        zero_padded(d1, 2),
        zero_padded(y2 as nat, 4),
        zero_padded(m2, 2),
        zero_padded(d2, 2),
    );
}

/// Sorting by creation date puts the older of two tasks of the same status
/// first, where both were created on dates written as "%Y-%m-%d" writes
/// them (years 0 to 9999); tasks created on the same day go by id.
pub proof fn law_created_oldest_first(a: Task, b: Task, y1: int, m1: nat, d1: nat, y2: int, m2: nat, d2: nat)
    requires
        a.status == b.status,
        a.created_at@ == date_text(y1, m1, d1),
        b.created_at@ == date_text(y2, m2, d2),
        0 <= y1 <= 9999,
        0 <= y2 <= 9999,
        1 <= m1 <= 12,
        1 <= m2 <= 12,
        1 <= d1 <= 31,
        1 <= d2 <= 31,
    ensures
        (y1 < y2 || (y1 == y2 && (m1 < m2 || (m1 == m2 && d1 < d2))))
            ==> key_before(SortBy::Created, a, b) && !key_before(SortBy::Created, b, a),
        y1 == y2 && m1 == m2 && d1 == d2 ==> (key_before(SortBy::Created, a, b) <==> a.id < b.id),
{
    law_date_text_order(y1, m1, d1, y2, m2, d2);
    law_date_text_order(y2, m2, d2, y1, m1, d1);
}

} // verus!

verus! {

/// Undoing a done task and then marking it done again gives back the list
/// as it was.
pub proof fn law_done_reverts_undo(s: Seq<Task>, id: u64)
    requires
        has_id(s, id),
        s[position_of(s, id)].status == Status::Done,
    ensures
        tasks_after_done(tasks_after_undo(s, id), seq![id]) == s,
{
    let u = tasks_after_undo(s, id);
    law_undo_makes_pending(s, id);
    let p = position_of(s, id);
    assert(first_with_id(s, id, p)) by {
        let k0 = choose|k: int| 0 <= k < s.len() && #[trigger] s[k].id == id;
        lemma_position_of(s, id, k0);
    }
    assert(seq![id].contains(id)) by {
        assert(seq![id][0] == id);
    }
    let d = tasks_after_done(u, seq![id]);
    assert forall|k: int| 0 <= k < s.len() implies #[trigger] d[k] == s[k] by {
        if k == p {
            assert(first_of_its_id(u, k)) by {
                assert forall|j: int| 0 <= j < k implies #[trigger] u[j].id != u[k].id by {
                    assert(u[j] == s[j]);
                }
            }
        } else if seq![id].contains(u[k].id) {
            let w = choose|w: int| 0 <= w < 1 && #[trigger] seq![id][w] == u[k].id;
            assert(u[k] == s[k]);
            assert(s[k].id == id);
            if k < p {
                assert(s[k].id != id);
            } else {
                assert(!first_of_its_id(u, k)) by {
                    assert(u[p].id == id);
                }
            }
        }
    }
    assert(d =~= s);
}

/// An added task is pending, carries the next id, the trimmed text and the
/// given priority, is the one then found by that id, and no task had that
/// id before.
pub proof fn law_added_task_pending(
    data: Data,
    t: Task,
    text: Seq<char>,
    priority: Priority,
    due: Option<Seq<char>>,
    created_at: Seq<char>,
)
    requires
        data.well_formed(),
        added_task(t, data.next_id, text, priority, due, created_at),
    ensures
        t.status == Status::Pending,
        t.id == data.next_id,
        t.text@ == trimmed(text),
        t.priority == priority,
        stored_due(due) is None ==> t.due is None,
        has_id(data.tasks@.push(t), data.next_id),
        data.tasks@.push(t)[position_of(data.tasks@.push(t), data.next_id)] == t,
        forall|k: int| 0 <= k < data.tasks@.len() ==> #[trigger] data.tasks@[k].id != t.id,
{
    law_added_task_found(data, t);
}

} // verus!

verus! {

/// The ids of a delete request in the order of their first mention name
/// each id of the request once and nothing else.
pub proof fn law_first_mentions(ids: Seq<u64>)
    ensures
        first_mentions(ids).no_duplicates(),
        forall|x: u64| first_mentions(ids).contains(x) <==> ids.contains(x),
        first_mentions(ids).len() <= ids.len(),
        ids.len() > 0 ==> first_mentions(ids)[0] == ids[0],
    decreases ids.len(),
{
    if ids.len() > 0 {
        let p = ids.drop_last();
        law_first_mentions(p);
        let d = first_mentions(p);
        assert forall|x: u64| first_mentions(ids).contains(x) <==> ids.contains(x) by {
            if ids.contains(x) && x != ids.last() {
                let i = choose|i: int| 0 <= i < ids.len() && ids[i] == x;
                assert(p[i] == x);
            }
            if p.contains(x) {
                let i = choose|i: int| 0 <= i < p.len() && p[i] == x;
                assert(ids[i] == x);
            }
            if d.contains(ids.last()) {
            } else {
                assert(d.push(ids.last())[d.len() as int] == ids.last());
                if d.contains(x) {
                    let i = choose|i: int| 0 <= i < d.len() && d[i] == x;
                    assert(d.push(ids.last())[i] == x);
                }
                if d.push(ids.last()).contains(x) && x != ids.last() {
                    let i = choose|i: int| 0 <= i < d.len() + 1 && d.push(ids.last())[i] == x;
                    assert(d[i] == x);
                }
            }
            assert(ids.last() == ids[ids.len() - 1]);
        }
        if p.len() > 0 {
            assert(p[0] == ids[0]);
            assert(d.len() > 0) by {
                assert(p.contains(p[0]));
            }
        } else {
            assert(d.len() == 0);
            assert(first_mentions(ids) =~= seq![ids[0]]);
        }
    }
}

} // verus!

verus! {

/// Sorting loses and adds no task: a task is in the sorted list exactly
/// when it is in the list that was sorted. So a search finds every task of
/// the list whose text holds the keyword, pending or done.
pub proof fn law_sort_keeps_tasks(sort: SortBy, input: Seq<Task>, out: Seq<Task>, p: Seq<int>, t: Task)
    requires
        sorted_stably(sort, input, out, p),
    ensures
        out.contains(t) <==> input.contains(t),
        out.len() == input.len(),
{
    if out.contains(t) {
        let k = choose|k: int| 0 <= k < out.len() && out[k] == t;
        assert(input[p[k]] == t);
    }
    if input.contains(t) {
        let v = choose|v: int| 0 <= v < input.len() && input[v] == t;
        lemma_permutation_onto(p, input.len(), v);
        let k = choose|k: int| 0 <= k < input.len() && p[k] == v;
        assert(out[k] == t);
    }
}

} // verus!

use vstd::prelude::*;
use crate::model::task::{Task, TaskView, task_lt, same_rank, lemma_task_lt_strict, lemma_task_lt_transitive};
use crate::scheduler::model::{RowView, size, flat, row_ok, table_ok, task_ok, lemma_flat_push};
use crate::scheduler::state::{Row, row_view, table_view, copy_tasks};

verus! {

/// The rows are in strictly increasing order of duration.
pub open spec fn rows_sorted(table: Seq<RowView>) -> bool {
    forall|a: int, b: int| 0 <= a < b < table.len() ==> table[a].0 < table[b].0
}

/// The tasks of a row are in strictly increasing order of `task_lt`.
pub open spec fn row_sorted(row: Seq<TaskView>) -> bool {
    forall|a: int, b: int| 0 <= a < b < row.len() ==> task_lt(row[a], row[b])
}

/// Task `t` stands in some row of the table.
pub open spec fn in_table(table: Seq<RowView>, t: TaskView) -> bool {
    exists|r: int, k: int| 0 <= r < table.len() && 0 <= k < table[r].1.len() && table[r].1[k] == t
}

/// Each row is sorted, non-empty and holds tasks of its own duration.
pub open spec fn rows_well_formed(table: Seq<RowView>) -> bool {
    forall|r: int| 0 <= r < table.len() ==> {
        &&& row_sorted(#[trigger] table[r].1)
        &&& table[r].1.len() > 0
        &&& forall|k: int| 0 <= k < table[r].1.len() ==> #[trigger] table[r].1[k].duration == table[r].0
    }
}

/// `table` groups the given tasks by duration: one row per duration, in increasing
/// order of duration, each row holding the distinct tasks of that duration in
/// increasing order of `task_lt`.
pub open spec fn table_of(table: Seq<RowView>, tasks: Seq<TaskView>) -> bool {
    &&& rows_sorted(table)
    &&& rows_well_formed(table)
    &&& forall|t: TaskView| in_table(table, t) <==> tasks.contains(t)
}

/// The duration table of the given tasks (there is exactly one: see
/// `lemma_table_of_unique` and `construct_duration_table`).
pub open spec fn duration_table(tasks: Seq<TaskView>) -> Seq<RowView> {
    choose|table: Seq<RowView>| table_of(table, tasks)
}

proof fn lemma_sorted_unique_ints(a: Seq<int>, b: Seq<int>)
    requires
        forall|i: int, j: int| 0 <= i < j < a.len() ==> a[i] < a[j],
        forall|i: int, j: int| 0 <= i < j < b.len() ==> b[i] < b[j],
        forall|x: int| a.contains(x) <==> b.contains(x),
    ensures
        a == b,
    decreases a.len(),
{
    if a.len() == 0 {
        if b.len() > 0 {
            assert(b.contains(b[0]));
        }
        assert(a =~= b);
    } else {
        assert(a.contains(a[0]));
        assert(b.len() > 0);
        assert(b.contains(b[0]));
        let i = choose|i: int| 0 <= i < a.len() && a[i] == b[0];
        let j = choose|j: int| 0 <= j < b.len() && b[j] == a[0];
        assert(a[0] == b[0]);
        assert forall|x: int| a.drop_first().contains(x) <==> b.drop_first().contains(x) by {
            if a.drop_first().contains(x) {
                let k = choose|k: int| 0 <= k < a.drop_first().len() && a.drop_first()[k] == x;
                assert(a[k + 1] == x);
                assert(b.contains(x));
                let m = choose|m: int| 0 <= m < b.len() && b[m] == x;
                assert(m != 0);
                assert(b.drop_first()[m - 1] == x);
            }
            if b.drop_first().contains(x) {
                let k = choose|k: int| 0 <= k < b.drop_first().len() && b.drop_first()[k] == x;
                assert(b[k + 1] == x);
                assert(a.contains(x));
                let m = choose|m: int| 0 <= m < a.len() && a[m] == x;
                assert(m != 0);
                assert(a.drop_first()[m - 1] == x);
            }
        }
        lemma_sorted_unique_ints(a.drop_first(), b.drop_first());
        assert(a.len() == b.len()) by {
            assert(a.drop_first().len() == b.drop_first().len());
        }
        assert forall|k: int| 0 <= k < a.len() implies a[k] == b[k] by {
            if k > 0 {
                assert(a[k] == a.drop_first()[k - 1]);
                assert(b[k] == b.drop_first()[k - 1]);
            }
        }
        assert(a =~= b);
    }
}

proof fn lemma_sorted_unique_tasks(a: Seq<TaskView>, b: Seq<TaskView>, d: int)
    requires
        row_sorted(a),
        row_sorted(b),
        forall|k: int| 0 <= k < a.len() ==> #[trigger] a[k].duration == d,
        forall|k: int| 0 <= k < b.len() ==> #[trigger] b[k].duration == d,
        forall|x: TaskView| a.contains(x) <==> b.contains(x),
    ensures
        a == b,
    decreases a.len(),
{
    if a.len() == 0 {
        if b.len() > 0 {
            assert(b.contains(b[0]));
        }
        assert(a =~= b);
    } else {
        assert(a.contains(a[0]));
        assert(b.contains(b[0]));
        let i = choose|i: int| 0 <= i < a.len() && a[i] == b[0];
        let j = choose|j: int| 0 <= j < b.len() && b[j] == a[0];
        if a[0] != b[0] {
            assert(i > 0 && j > 0);
            assert(task_lt(a[0], b[0]));
            assert(task_lt(b[0], a[0]));
            lemma_task_lt_strict(a[0], b[0]);
        }
        assert forall|x: TaskView| a.drop_first().contains(x) <==> b.drop_first().contains(x) by {
            if a.drop_first().contains(x) {
                let k = choose|k: int| 0 <= k < a.drop_first().len() && a.drop_first()[k] == x;
                assert(a[k + 1] == x);
                assert(b.contains(x));
                let m = choose|m: int| 0 <= m < b.len() && b[m] == x;
                if m == 0 {
                    assert(task_lt(a[0], a[k + 1]));
                    lemma_task_lt_strict(a[0], a[0]);
                }
                assert(b.drop_first()[m - 1] == x);
            }
            if b.drop_first().contains(x) {
                let k = choose|k: int| 0 <= k < b.drop_first().len() && b.drop_first()[k] == x;
                assert(b[k + 1] == x);
                assert(a.contains(x));
                let m = choose|m: int| 0 <= m < a.len() && a[m] == x;
                if m == 0 {
                    assert(task_lt(b[0], b[k + 1]));
                    lemma_task_lt_strict(b[0], b[0]);
                }
                assert(a.drop_first()[m - 1] == x);
            }
        }
        lemma_sorted_unique_tasks(a.drop_first(), b.drop_first(), d);
        assert(a.len() == b.len()) by {
            assert(a.drop_first().len() == b.drop_first().len());
        }
        assert forall|k: int| 0 <= k < a.len() implies a[k] == b[k] by {
            if k > 0 {
                assert(a[k] == a.drop_first()[k - 1]);
                assert(b[k] == b.drop_first()[k - 1]);
            }
        }
        assert(a =~= b);
    }
}

/// A task stands in exactly the row of its duration.
proof fn lemma_row_of_task(table: Seq<RowView>, t: TaskView, i: int)
    requires
        rows_sorted(table),
        rows_well_formed(table),
        0 <= i < table.len(),
    ensures
        table[i].1.contains(t) <==> (in_table(table, t) && t.duration == table[i].0),
{
    if in_table(table, t) && t.duration == table[i].0 {
        let (r, k) = choose|r: int, k: int| 0 <= r < table.len() && 0 <= k < table[r].1.len() && table[r].1[k] == t;
        assert(table[r].1[k].duration == table[r].0);
        if r < i {
            assert(table[r].0 < table[i].0);
        } else if r > i {
            assert(table[i].0 < table[r].0);
        }
        assert(table[i].1[k] == t);
    }
    if table[i].1.contains(t) {
        let k = choose|k: int| 0 <= k < table[i].1.len() && table[i].1[k] == t;
        assert(table[i].1[k].duration == table[i].0);
    }
}

/// Each set of tasks has exactly one duration table.
pub proof fn lemma_table_of_unique(a: Seq<RowView>, b: Seq<RowView>, tasks: Seq<TaskView>)
    requires
        table_of(a, tasks),
        table_of(b, tasks),
    ensures
        a == b,
{
    let ka = a.map_values(|row: RowView| row.0);
    let kb = b.map_values(|row: RowView| row.0);
    assert forall|x: int| ka.contains(x) <==> kb.contains(x) by {
        if ka.contains(x) {
            let i = choose|i: int| 0 <= i < ka.len() && ka[i] == x;
            assert(a[i].1.len() > 0);
            let t = a[i].1[0];
            assert(t.duration == x);
            assert(in_table(a, t));
            assert(in_table(b, t));
            let (r, k) = choose|r: int, k: int| 0 <= r < b.len() && 0 <= k < b[r].1.len() && b[r].1[k] == t;
            assert(b[r].1[k].duration == b[r].0);
            assert(kb[r] == x);
        }
        if kb.contains(x) {
            let i = choose|i: int| 0 <= i < kb.len() && kb[i] == x;
            assert(b[i].1.len() > 0);
            let t = b[i].1[0];
            assert(t.duration == x);
            assert(in_table(b, t));
            assert(in_table(a, t));
            let (r, k) = choose|r: int, k: int| 0 <= r < a.len() && 0 <= k < a[r].1.len() && a[r].1[k] == t;
            assert(a[r].1[k].duration == a[r].0);
            assert(ka[r] == x);
        }
    }
    lemma_sorted_unique_ints(ka, kb);
    assert(a.len() == b.len()) by {
        assert(ka.len() == a.len());
        assert(kb.len() == b.len());
    }
    assert forall|i: int| 0 <= i < a.len() implies a[i] == b[i] by {
        assert(ka[i] == kb[i]);
        assert forall|x: TaskView| a[i].1.contains(x) <==> b[i].1.contains(x) by {
            lemma_row_of_task(a, x, i);
            lemma_row_of_task(b, x, i);
        }
        lemma_sorted_unique_tasks(a[i].1, b[i].1, a[i].0);
    }
    assert(a =~= b);
}


/// Membership in a table, row by row.
proof fn lemma_in_table_rows(table: Seq<RowView>, t: TaskView)
    ensures
        in_table(table, t) <==> exists|r: int| 0 <= r < table.len() && #[trigger] table[r].1.contains(t),
{
    if in_table(table, t) {
        let (r, k) = choose|r: int, k: int| 0 <= r < table.len() && 0 <= k < table[r].1.len() && table[r].1[k] == t;
        assert(table[r].1.contains(t));
    }
    if exists|r: int| 0 <= r < table.len() && #[trigger] table[r].1.contains(t) {
        let r = choose|r: int| 0 <= r < table.len() && #[trigger] table[r].1.contains(t);
        let k = choose|k: int| 0 <= k < table[r].1.len() && table[r].1[k] == t;
        assert(0 <= r < table.len() && 0 <= k < table[r].1.len() && table[r].1[k] == t);
    }
}

proof fn lemma_size_update(table: Seq<RowView>, p: int, row: RowView)
    requires
        0 <= p < table.len(),
    ensures
        size(table.update(p, row)) + table[p].1.len() == size(table) + row.1.len(),
    decreases table.len(),
{
    let t2 = table.update(p, row);
    if p == table.len() - 1 {
        assert(t2.drop_last() =~= table.drop_last());
    } else {
        lemma_size_update(table.drop_last(), p, row);
        assert(t2.drop_last() =~= table.drop_last().update(p, row));
    }
}

proof fn lemma_size_insert(table: Seq<RowView>, p: int, row: RowView)
    requires
        0 <= p <= table.len(),
    ensures
        size(table.insert(p, row)) == size(table) + row.1.len(),
    decreases table.len(),
{
    let t2 = table.insert(p, row);
    if p == table.len() {
        assert(t2 =~= table.push(row));
        lemma_flat_push(table, row);
    } else {
        lemma_size_insert(table.drop_last(), p, row);
        assert(t2.drop_last() =~= table.drop_last().insert(p, row));
        assert(t2.last() == table.last());
    }
}

/// Where a task is added to a row: after the tasks below it.
pub open spec fn row_slot_ok(row: Seq<TaskView>, q: int, t: TaskView) -> bool {
    &&& 0 <= q <= row.len()
    &&& forall|a: int| 0 <= a < q ==> task_lt(#[trigger] row[a], t)
    &&& q < row.len() ==> !task_lt(row[q], t)
}

/// Where a new row is added to a table: after the rows of shorter duration.
pub open spec fn table_slot_ok(table: Seq<RowView>, p: int, d: int) -> bool {
    &&& 0 <= p <= table.len()
    &&& forall|a: int| 0 <= a < p ==> #[trigger] table[a].0 < d
    &&& p < table.len() ==> table[p].0 >= d
}

/// The table is a well-formed duration table.
pub open spec fn table_wf(table: Seq<RowView>) -> bool {
    rows_sorted(table) && rows_well_formed(table)
}

/// A task of the same rank and duration as `t` already stands where `t` would go.
proof fn lemma_insert_present(table: Seq<RowView>, p: int, q: int, t: TaskView)
    requires
        table_wf(table),
        0 <= p < table.len(),
        table[p].0 == t.duration,
        0 <= q < table[p].1.len(),
        same_rank(table[p].1[q], t),
    ensures
        table[p].1[q] == t,
        in_table(table, t),
{
    assert(table[p].1[q].duration == table[p].0);
}

/// Adding `t` to its row, at its place, keeps the table well-formed.
proof fn lemma_insert_into_row(table: Seq<RowView>, p: int, q: int, t: TaskView)
    requires
        table_wf(table),
        0 <= p < table.len(),
        table[p].0 == t.duration,
        row_slot_ok(table[p].1, q, t),
        q < table[p].1.len() ==> !same_rank(table[p].1[q], t),
    ensures
        ({
            let nv = table.update(p, (table[p].0, table[p].1.insert(q, t)));
            &&& table_wf(nv)
            &&& forall|x: TaskView| in_table(nv, x) <==> (in_table(table, x) || x == t)
            &&& size(nv) == size(table) + 1
        }),
{
    let rv = table[p];
    let nr = rv.1.insert(q, t);
    let nv = table.update(p, (rv.0, nr));
    if q < rv.1.len() {
        lemma_task_lt_strict(rv.1[q], t);
        assert(task_lt(t, rv.1[q]));
    }
    assert(row_sorted(rv.1));
    assert forall|a: int, b: int| 0 <= a < b < nr.len() implies task_lt(nr[a], nr[b]) by {
        if b < q {
            assert(nr[a] == rv.1[a] && nr[b] == rv.1[b]);
        } else if b == q {
            assert(nr[a] == rv.1[a]);
        } else if a < q {
            assert(nr[a] == rv.1[a] && nr[b] == rv.1[b - 1]);
            if b - 1 > q {
                lemma_task_lt_transitive(rv.1[a], t, rv.1[q]);
                lemma_task_lt_transitive(rv.1[a], rv.1[q], rv.1[b - 1]);
            } else {
                lemma_task_lt_transitive(rv.1[a], t, rv.1[b - 1]);
            }
        } else if a == q {
            assert(nr[b] == rv.1[b - 1]);
            if b - 1 > q {
                lemma_task_lt_transitive(t, rv.1[q], rv.1[b - 1]);
            }
        } else {
            assert(nr[a] == rv.1[a - 1] && nr[b] == rv.1[b - 1]);
        }
    }
    assert forall|r: int| 0 <= r < nv.len() implies {
        &&& row_sorted(#[trigger] nv[r].1)
        &&& nv[r].1.len() > 0
        &&& forall|k: int| 0 <= k < nv[r].1.len() ==> #[trigger] nv[r].1[k].duration == nv[r].0
    } by {
        if r == p {
            assert forall|k: int| 0 <= k < nv[r].1.len() implies #[trigger] nv[r].1[k].duration == nv[r].0 by {
                if k < q {
                    assert(nr[k] == rv.1[k]);
                } else if k > q {
                    assert(nr[k] == rv.1[k - 1]);
                }
            }
        }
    }
    assert forall|x: TaskView| in_table(nv, x) <==> (in_table(table, x) || x == t) by {
        lemma_in_table_rows(nv, x);
        lemma_in_table_rows(table, x);
        if nr.contains(x) {
            let k = choose|k: int| 0 <= k < nr.len() && nr[k] == x;
            if k < q {
                assert(rv.1[k] == x);
                assert(rv.1.contains(x));
            } else if k > q {
                assert(rv.1[k - 1] == x);
                assert(rv.1.contains(x));
            }
        }
        if rv.1.contains(x) {
            let k = choose|k: int| 0 <= k < rv.1.len() && rv.1[k] == x;
            if k < q {
                assert(nr[k] == x);
            } else {
                assert(nr[k + 1] == x);
            }
            assert(nr.contains(x));
        }
        if x == t {
            assert(nr[q] == x);
            assert(nv[p].1.contains(x));
        }
        if exists|r: int| 0 <= r < nv.len() && #[trigger] nv[r].1.contains(x) {
            let r = choose|r: int| 0 <= r < nv.len() && #[trigger] nv[r].1.contains(x);
            if r != p {
                assert(table[r].1.contains(x));
            }
        }
        if exists|r: int| 0 <= r < table.len() && #[trigger] table[r].1.contains(x) {
            let r = choose|r: int| 0 <= r < table.len() && #[trigger] table[r].1.contains(x);
            if r != p {
                assert(nv[r].1.contains(x));
            }
        }
    }
    lemma_size_update(table, p, (rv.0, nr));
}

/// Adding `t` as a new row, at its place, keeps the table well-formed.
proof fn lemma_insert_new_row(table: Seq<RowView>, p: int, t: TaskView)
    requires
        table_wf(table),
        table_slot_ok(table, p, t.duration),
        p < table.len() ==> table[p].0 != t.duration,
    ensures
        ({
            let nv = table.insert(p, (t.duration, seq![t]));
            &&& table_wf(nv)
            &&& forall|x: TaskView| in_table(nv, x) <==> (in_table(table, x) || x == t)
            &&& size(nv) == size(table) + 1
        }),
{
    let d = t.duration;
    let newrow: RowView = (d, seq![t]);
    let nv = table.insert(p, newrow);
    assert forall|a: int, b: int| 0 <= a < b < nv.len() implies nv[a].0 < nv[b].0 by {
        if b < p {
        } else if b == p {
        } else if a < p {
            assert(nv[b] == table[b - 1]);
            if b - 1 > p {
                assert(table[p].0 < table[b - 1].0);
            }
        } else if a == p {
            assert(nv[b] == table[b - 1]);
            if b - 1 > p {
                assert(table[p].0 < table[b - 1].0);
            }
        } else {
            assert(nv[a] == table[a - 1] && nv[b] == table[b - 1]);
        }
    }
    assert forall|r: int| 0 <= r < nv.len() implies {
        &&& row_sorted(#[trigger] nv[r].1)
        &&& nv[r].1.len() > 0
        &&& forall|k: int| 0 <= k < nv[r].1.len() ==> #[trigger] nv[r].1[k].duration == nv[r].0
    } by {
        if r < p {
            assert(nv[r] == table[r]);
        } else if r > p {
            assert(nv[r] == table[r - 1]);
        }
    }
    assert forall|x: TaskView| in_table(nv, x) <==> (in_table(table, x) || x == t) by {
        lemma_in_table_rows(nv, x);
        lemma_in_table_rows(table, x);
        if x == t {
            assert(nv[p].1[0] == x);
            assert(nv[p].1.contains(x));
        }
        if exists|r: int| 0 <= r < nv.len() && #[trigger] nv[r].1.contains(x) {
            let r = choose|r: int| 0 <= r < nv.len() && #[trigger] nv[r].1.contains(x);
            if r < p {
                assert(table[r].1.contains(x));
            } else if r > p {
                assert(table[r - 1].1.contains(x));
            } else {
                let k = choose|k: int| 0 <= k < nv[r].1.len() && nv[r].1[k] == x;
                assert(x == t);
            }
        }
        if exists|r: int| 0 <= r < table.len() && #[trigger] table[r].1.contains(x) {
            let r = choose|r: int| 0 <= r < table.len() && #[trigger] table[r].1.contains(x);
            if r < p {
                assert(nv[r].1.contains(x));
            } else {
                assert(nv[r + 1].1.contains(x));
            }
        }
    }
    lemma_size_insert(table, p, newrow);
}

/// Adds `task` to a duration table: into the row of its duration, in order, unless a
/// task of the same rank is there already; or as a new row, in order of duration.
fn insert_task<'a>(table: &mut Vec<Row<'a>>, task: &'a Task)
    requires
        table_wf(table_view(old(table)@)),
    ensures
        table_wf(table_view(final(table)@)),
        forall|t: TaskView| in_table(table_view(final(table)@), t) <==> (in_table(table_view(old(table)@), t) || t == task@),
        size(table_view(final(table)@)) <= size(table_view(old(table)@)) + 1,
{
    let ghost old_view = table_view(table@);
    let d = task.estimated_duration();
    let mut p: usize = 0;
    while p < table.len() && table[p].0 < d
        invariant
            p <= table.len(),
            table_view(table@) == old_view,
            d == task@.duration,
            forall|a: int| 0 <= a < p ==> #[trigger] old_view[a].0 < d,
        decreases table.len() - p,
    {
        assert(old_view[p as int].0 == table@[p as int].0);
        p = p + 1;
    }
    if p < table.len() {
        assert(old_view[p as int].0 == table@[p as int].0);
    }
    if p < table.len() && table[p].0 == d {
        let ghost rv = old_view[p as int];
        let row = copy_tasks(&table[p].1);
        assert(row@.map_values(|t: &'a Task| t@) == rv.1);
        let mut q: usize = 0;
        while q < row.len() && row[q].ranks_below(task)
            invariant
                q <= row.len(),
                row@.map_values(|t: &'a Task| t@) == rv.1,
                forall|a: int| 0 <= a < q ==> task_lt(#[trigger] rv.1[a], task@),
            decreases row.len() - q,
        {
            assert(rv.1[q as int] == row@[q as int]@);
            q = q + 1;
        }
        if q < row.len() {
            assert(rv.1[q as int] == row@[q as int]@);
        }
        if q < row.len() && row[q].ranks_with(task) {
            proof {
                lemma_insert_present(old_view, p as int, q as int, task@);
            }
            return;
        }
        proof {
            lemma_insert_into_row(old_view, p as int, q as int, task@);
        }
        let mut new_row = row;
        new_row.insert(q, task);
        assert(new_row@.map_values(|t: &'a Task| t@) =~= rv.1.insert(q as int, task@));
        table.set(p, (d, new_row));
        assert(table_view(table@) =~= old_view.update(p as int, (rv.0, rv.1.insert(q as int, task@))));
    } else {
        proof {
            lemma_insert_new_row(old_view, p as int, task@);
        }
        let mut v: Vec<&'a Task> = Vec::new();
        v.push(task);
        assert(row_view((d, v)) == (task@.duration, seq![task@])) by {
            assert(v@.map_values(|t: &'a Task| t@) =~= seq![task@]);
        }
        table.insert(p, (d, v));
        assert(table_view(table@) =~= old_view.insert(p as int, (task@.duration, seq![task@])));
    }
}

/// The place of `t` in a sorted row: the number of leading tasks below it.
pub open spec fn row_place(row: Seq<TaskView>, t: TaskView) -> int
    decreases row.len(),
{
    if row.len() > 0 && task_lt(row[0], t) {
        1 + row_place(row.drop_first(), t)
    } else {
        0
    }
}

/// The place of a row of duration `d` in a sorted table: the number of leading rows of
/// shorter duration.
pub open spec fn table_place(table: Seq<RowView>, d: int) -> int
    decreases table.len(),
{
    if table.len() > 0 && table[0].0 < d {
        1 + table_place(table.drop_first(), d)
    } else {
        0
    }
}

proof fn lemma_row_place(row: Seq<TaskView>, t: TaskView)
    ensures
        row_slot_ok(row, row_place(row, t), t),
    decreases row.len(),
{
    if row.len() > 0 && task_lt(row[0], t) {
        lemma_row_place(row.drop_first(), t);
        let q = row_place(row, t);
        assert forall|a: int| 0 <= a < q implies task_lt(#[trigger] row[a], t) by {
            if a > 0 {
                assert(row[a] == row.drop_first()[a - 1]);
            }
        }
        if q < row.len() {
            assert(row[q] == row.drop_first()[q - 1]);
        }
    }
}

proof fn lemma_table_place(table: Seq<RowView>, d: int)
    ensures
        table_slot_ok(table, table_place(table, d), d),
    decreases table.len(),
{
    if table.len() > 0 && table[0].0 < d {
        lemma_table_place(table.drop_first(), d);
        let p = table_place(table, d);
        assert forall|a: int| 0 <= a < p implies #[trigger] table[a].0 < d by {
            if a > 0 {
                assert(table[a] == table.drop_first()[a - 1]);
            }
        }
        if p < table.len() {
            assert(table[p] == table.drop_first()[p - 1]);
        }
    }
}

/// A duration table with `t` added.
pub open spec fn table_with(table: Seq<RowView>, t: TaskView) -> Seq<RowView> {
    let p = table_place(table, t.duration);
    if p < table.len() && table[p].0 == t.duration {
        let q = row_place(table[p].1, t);
        if q < table[p].1.len() && same_rank(table[p].1[q], t) {
            table
        } else {
            table.update(p, (table[p].0, table[p].1.insert(q, t)))
        }
    } else {
        table.insert(p, (t.duration, seq![t]))
    }
}

proof fn lemma_table_with(table: Seq<RowView>, t: TaskView)
    requires
        table_wf(table),
    ensures
        table_wf(table_with(table, t)),
        forall|x: TaskView| in_table(table_with(table, t), x) <==> (in_table(table, x) || x == t),
        size(table_with(table, t)) <= size(table) + 1,
{
    let p = table_place(table, t.duration);
    lemma_table_place(table, t.duration);
    if p < table.len() && table[p].0 == t.duration {
        let q = row_place(table[p].1, t);
        lemma_row_place(table[p].1, t);
        if q < table[p].1.len() && same_rank(table[p].1[q], t) {
            lemma_insert_present(table, p, q, t);
        } else {
            lemma_insert_into_row(table, p, q, t);
        }
    } else {
        lemma_insert_new_row(table, p, t);
    }
}

/// The duration table built by adding the tasks one by one.
pub open spec fn table_of_all(tasks: Seq<TaskView>) -> Seq<RowView>
    decreases tasks.len(),
{
    if tasks.len() == 0 {
        Seq::empty()
    } else {
        table_with(table_of_all(tasks.drop_last()), tasks.last())
    }
}

proof fn lemma_table_of_all(tasks: Seq<TaskView>)
    ensures
        table_of(table_of_all(tasks), tasks),
        size(table_of_all(tasks)) <= tasks.len(),
    decreases tasks.len(),
{
    if tasks.len() > 0 {
        lemma_table_of_all(tasks.drop_last());
        lemma_table_with(table_of_all(tasks.drop_last()), tasks.last());
        assert forall|x: TaskView| tasks.contains(x) <==> (tasks.drop_last().contains(x) || x == tasks.last()) by {
            if tasks.contains(x) {
                let k = choose|k: int| 0 <= k < tasks.len() && tasks[k] == x;
                if k < tasks.len() - 1 {
                    assert(tasks.drop_last()[k] == x);
                }
            }
            if tasks.drop_last().contains(x) {
                let k = choose|k: int| 0 <= k < tasks.drop_last().len() && tasks.drop_last()[k] == x;
                assert(tasks[k] == x);
            }
            if x == tasks.last() {
                assert(tasks[tasks.len() - 1] == x);
            }
        }
    } else {
        assert(flat(Seq::<RowView>::empty()) =~= Seq::<TaskView>::empty());
    }
}

/// Every list of tasks has its duration table, with no more tasks than the list.
pub proof fn lemma_duration_table(tasks: Seq<TaskView>)
    ensures
        table_of(duration_table(tasks), tasks),
        size(duration_table(tasks)) <= tasks.len(),
        duration_table(tasks) == table_of_all(tasks),
{
    lemma_table_of_all(tasks);
    lemma_table_of_unique(table_of_all(tasks), duration_table(tasks), tasks);
}

/// The views of a list of tasks.
pub open spec fn task_views(tasks: Seq<Task>) -> Seq<TaskView> {
    tasks.map_values(|t: Task| t@)
}

/// Groups the tasks by duration: one row per duration, in increasing order of
/// duration, each row holding the tasks of that duration in increasing order of
/// `task_lt`; of tasks of equal duration and rank only the first is kept.
pub fn construct_duration_table<'a>(tasks: &'a [Task]) -> (table: Vec<Row<'a>>)
    ensures
        table_of(table_view(table@), task_views(tasks@)),
        table_view(table@) == duration_table(task_views(tasks@)),
        size(table_view(table@)) <= tasks@.len(),
{
    let mut table: Vec<Row<'a>> = Vec::new();
    let mut i: usize = 0;
    assert(table_view(table@) =~= Seq::<RowView>::empty());
    while i < tasks.len()
        invariant
            i <= tasks@.len(),
            table_of(table_view(table@), task_views(tasks@).take(i as int)),
            table_wf(table_view(table@)),
            size(table_view(table@)) <= i,
        decreases tasks.len() - i,
    {
        let ghost before = table_view(table@);
        insert_task(&mut table, &tasks[i]);
        proof {
            let tv = task_views(tasks@);
            assert(tv.take(i + 1) =~= tv.take(i as int).push(tasks@[i as int]@));
            let pre = tv.take(i as int);
            let post = tv.take(i + 1);
            assert forall|t: TaskView| in_table(table_view(table@), t) <==> post.contains(t) by {
                if post.contains(t) {
                    let k = choose|k: int| 0 <= k < post.len() && post[k] == t;
                    if k < i {
                        assert(pre[k] == t);
                    }
                }
                if pre.contains(t) {
                    let k = choose|k: int| 0 <= k < pre.len() && pre[k] == t;
                    assert(post[k] == t);
                }
                if t == tasks@[i as int]@ {
                    assert(tv.take(i + 1)[i as int] == t);
                }
            }
        }
        i = i + 1;
    }
    proof {
        assert(task_views(tasks@).take(i as int) =~= task_views(tasks@));
        lemma_table_of_unique(table_view(table@), duration_table(task_views(tasks@)), task_views(tasks@));
    }
    table
}
} // verus!

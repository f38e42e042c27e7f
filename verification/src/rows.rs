use vstd::prelude::*;
use crate::model::slot::{Slot, SlotView};
use crate::model::task::{Task, TaskView};
use crate::model::text::{split_all, split_fields, strings_view};
use crate::records::RecordId;

verus! {

/// A stored task: its record key and the task.
#[derive(Clone, Debug)]
pub struct StoredTask {
    pub id: RecordId,
    pub task: Task,
}

impl View for StoredTask {
    type V = (RecordId, TaskView);

    open spec fn view(&self) -> (RecordId, TaskView) {
        (self.id, self.task@)
    }
}

impl StoredTask {
    /// An identical copy.
    pub fn duplicate(&self) -> (r: StoredTask)
        ensures
            r@ == self@,
    {
        StoredTask { id: self.id.duplicate(), task: self.task.duplicate() }
    }
}

pub open spec fn opt_stored(t: Option<StoredTask>) -> Option<(RecordId, TaskView)> {
    match t {
        Some(x) => Some(x@),
        None => None,
    }
}

pub open spec fn opt_i64(x: Option<i64>) -> Option<int> {
    match x {
        Some(v) => Some(v as int),
        None => None,
    }
}

/// A task item of a row of the slots query: the moment it is planned for, and the task,
/// each where the item holds one that reads (a number; an object that reads as a task
/// with its key).
#[derive(Clone, Debug)]
pub struct TaskRow {
    pub scheduled_for: Option<i64>,
    pub task: Option<StoredTask>,
}

/// A row of the slots query: the text of its `id` (empty where it has no string id),
/// the slot (none where the row does not read as a slot), and its task items (none
/// where its `tasks` field is not a list).
#[derive(Clone, Debug)]
pub struct SlotRow {
    pub id: String,
    pub slot: Option<Slot>,
    pub tasks: Option<Vec<TaskRow>>,
}

/// A slot, with its key, the tasks placed in it and the moments they are planned for.
#[derive(Clone, Debug)]
pub struct SlotWithTasks {
    pub slot_id: RecordId,
    pub slot: Slot,
    pub tasks: Vec<(StoredTask, i64)>,
}

/// The mathematical model of a task item.
pub open spec fn task_row_view(t: TaskRow) -> (Option<int>, Option<(RecordId, TaskView)>) {
    (opt_i64(t.scheduled_for), opt_stored(t.task))
}

/// The mathematical model of a row of the slots query.
pub struct SlotRowView {
    pub id: Seq<char>,
    pub slot: Option<SlotView>,
    pub tasks: Option<Seq<(Option<int>, Option<(RecordId, TaskView)>)>>,
}

pub open spec fn slot_row_view(r: SlotRow) -> SlotRowView {
    SlotRowView {
        id: r.id@,
        slot: match r.slot {
            Some(s) => Some(s@),
            None => None,
        },
        tasks: match r.tasks {
            Some(v) => Some(v@.map_values(|t: TaskRow| task_row_view(t))),
            None => None,
        },
    }
}

pub open spec fn rows_view(rows: Seq<SlotRow>) -> Seq<SlotRowView> {
    rows.map_values(|r: SlotRow| slot_row_view(r))
}

pub open spec fn placed_view(p: Seq<(StoredTask, i64)>) -> Seq<((RecordId, TaskView), int)> {
    p.map_values(|x: (StoredTask, i64)| (x.0@, x.1 as int))
}

/// The mathematical model of a slot with its tasks.
pub open spec fn slot_tasks_view(s: SlotWithTasks) -> ((Seq<char>, Seq<char>), SlotView, Seq<((RecordId, TaskView), int)>) {
    ((s.slot_id.table@, s.slot_id.key@), s.slot@, placed_view(s.tasks@))
}

/// The tasks of a row, in order: the items that have both a moment and a task; the
/// others are left out.
pub open spec fn row_tasks(items: Seq<(Option<int>, Option<(RecordId, TaskView)>)>) -> Seq<((RecordId, TaskView), int)>
    decreases items.len(),
{
    if items.len() == 0 {
        Seq::empty()
    } else {
        let rest = row_tasks(items.drop_last());
        match items.last() {
            (Some(at), Some(t)) => rest.push((t, at)),
            _ => rest,
        }
    }
}

/// What reading the slots query gives: for each kept row, its key (table and key), its
/// slot and its tasks.
pub type SlotsRead = Seq<((Seq<char>, Seq<char>), SlotView, Seq<((RecordId, TaskView), int)>)>;

/// Reads the rows of the slots query, in order: a row whose id is not written
/// `table:key` is left out; a kept row must read as a slot, else the reading fails at
/// the first such row (its position); each slot comes with its key, read from the id,
/// and its row's tasks (none where the row has no list of tasks).
pub open spec fn read_rows(rows: Seq<SlotRowView>) -> Result<SlotsRead, int>
    decreases rows.len(),
{
    if rows.len() == 0 {
        Ok(Seq::empty())
    } else {
        match read_rows(rows.drop_last()) {
            Err(i) => Err(i),
            Ok(rest) => {
                let r = rows.last();
                let parts = split_fields(r.id, ':');
                if parts.len() != 2 {
                    Ok(rest)
                } else {
                    match r.slot {
                        None => Err(rows.len() - 1),
                        Some(s) => Ok(rest.push(((parts[0], parts[1]), s, match r.tasks {
                            Some(items) => row_tasks(items),
                            None => Seq::empty(),
                        }))),
                    }
                }
            },
        }
    }
}

proof fn lemma_read_rows_err(rows: Seq<SlotRowView>, k: int, i: int)
    requires
        0 <= k <= rows.len(),
        read_rows(rows.take(k)) == Err::<SlotsRead, int>(i),
    ensures
        read_rows(rows) == Err::<SlotsRead, int>(i),
    decreases rows.len() - k,
{
    if k < rows.len() {
        assert(rows.take(k + 1).drop_last() =~= rows.take(k));
        lemma_read_rows_err(rows, k + 1, i);
    } else {
        assert(rows.take(k) =~= rows);
    }
}

/// The tasks of the task items of a row, in order (see `row_tasks`).
pub fn read_task_rows(items: &Vec<TaskRow>) -> (r: Vec<(StoredTask, i64)>)
    ensures
        placed_view(r@) == row_tasks(items@.map_values(|t: TaskRow| task_row_view(t))),
{
    let ghost all = items@.map_values(|t: TaskRow| task_row_view(t));
    let mut r: Vec<(StoredTask, i64)> = Vec::new();
    let mut i: usize = 0;
    assert(all.take(0) =~= Seq::<(Option<int>, Option<(RecordId, TaskView)>)>::empty());
    assert(placed_view(r@) =~= Seq::<((RecordId, TaskView), int)>::empty());
    while i < items.len()
        invariant
            i <= items.len(),
            all == items@.map_values(|t: TaskRow| task_row_view(t)),
            placed_view(r@) == row_tasks(all.take(i as int)),
        decreases items.len() - i,
    {
        assert(all.take(i + 1).drop_last() =~= all.take(i as int));
        assert(all.take(i + 1).last() == task_row_view(items@[i as int]));
        let ghost before = r@;
        match (&items[i].scheduled_for, &items[i].task) {
            (Some(at), Some(t)) => {
                let entry = (t.duplicate(), *at);
                r.push(entry);
                assert(placed_view(r@) =~= placed_view(before).push((t@, *at as int)));
            },
            _ => {},
        }
        i = i + 1;
    }
    assert(all.take(i as int) =~= all);
    r
}

/// Reads the rows of the slots query (see `read_rows`).
pub fn read_slot_rows(rows: &Vec<SlotRow>) -> (r: Result<Vec<SlotWithTasks>, usize>)
    ensures
        match r {
            Ok(v) => read_rows(rows_view(rows@)) == Ok::<SlotsRead, int>(v@.map_values(|s: SlotWithTasks| slot_tasks_view(s))),
            Err(i) => read_rows(rows_view(rows@)) == Err::<SlotsRead, int>(i as int),
        },
{
    let ghost all = rows_view(rows@);
    let mut out: Vec<SlotWithTasks> = Vec::new();
    let mut i: usize = 0;
    assert(all.take(0) =~= Seq::<SlotRowView>::empty());
    assert(out@.map_values(|s: SlotWithTasks| slot_tasks_view(s)) =~= Seq::<((Seq<char>, Seq<char>), SlotView, Seq<((RecordId, TaskView), int)>)>::empty());
    while i < rows.len()
        invariant
            i <= rows.len(),
            all == rows_view(rows@),
            read_rows(all.take(i as int)) == Ok::<SlotsRead, int>(out@.map_values(|s: SlotWithTasks| slot_tasks_view(s))),
        decreases rows.len() - i,
    {
        assert(all.take(i + 1).drop_last() =~= all.take(i as int));
        assert(all.take(i + 1).last() == slot_row_view(rows@[i as int]));
        let row = &rows[i];
        let parts = split_all(row.id.as_str(), ':');
        if parts.len() == 2 {
            match row.slot {
                None => {
                    proof {
                        lemma_read_rows_err(all, i + 1, i as int);
                    }
                    return Err(i);
                },
                Some(slot) => {
                    let tasks = match &row.tasks {
                        Some(items) => read_task_rows(items),
                        None => Vec::new(),
                    };
                    assert(parts@[0]@ == strings_view(parts@)[0]);
                    assert(parts@[1]@ == strings_view(parts@)[1]);
                    let slot_id = RecordId { table: parts[0].clone(), key: parts[1].clone() };
                    let entry = SlotWithTasks { slot_id, slot, tasks };
                    let ghost before = out@;
                    out.push(entry);
                    assert(out@.map_values(|s: SlotWithTasks| slot_tasks_view(s)) =~= before.map_values(
                        |s: SlotWithTasks| slot_tasks_view(s),
                    ).push(slot_tasks_view(entry)));
                    proof {
                        if row.tasks is None {
                            assert(placed_view(entry.tasks@) =~= Seq::<((RecordId, TaskView), int)>::empty());
                        }
                    }
                },
            }
        }
        i = i + 1;
    }
    assert(all.take(i as int) =~= all);
    Ok(out)
}

/// An item of the scheduled-tasks query: its moment where it is a number, and its
/// `out` field where that is an object: the task it reads as, or none where it does
/// not read as a task.
#[derive(Clone, Debug)]
pub struct ScheduledRow {
    pub scheduled_for: Option<i64>,
    pub out: Option<Option<StoredTask>>,
}

pub open spec fn scheduled_row_view(r: ScheduledRow) -> (Option<int>, Option<Option<(RecordId, TaskView)>>) {
    (opt_i64(r.scheduled_for), match r.out {
        Some(t) => Some(opt_stored(t)),
        None => None,
    })
}

/// Reads the items of the scheduled-tasks query, in order: an item without both a
/// numeric moment and an `out` object is left out; a kept item whose `out` does not read
/// as a task makes the reading fail there (its position).
pub open spec fn read_scheduled(rows: Seq<(Option<int>, Option<Option<(RecordId, TaskView)>>)>) -> Result<Seq<((RecordId, TaskView), int)>, int>
    decreases rows.len(),
{
    if rows.len() == 0 {
        Ok(Seq::empty())
    } else {
        match read_scheduled(rows.drop_last()) {
            Err(i) => Err(i),
            Ok(rest) => match rows.last() {
                (Some(at), Some(Some(t))) => Ok(rest.push((t, at))),
                (Some(_), Some(None)) => Err(rows.len() - 1),
                _ => Ok(rest),
            },
        }
    }
}

proof fn lemma_read_scheduled_err(rows: Seq<(Option<int>, Option<Option<(RecordId, TaskView)>>)>, k: int, i: int)
    requires
        0 <= k <= rows.len(),
        read_scheduled(rows.take(k)) == Err::<Seq<((RecordId, TaskView), int)>, int>(i),
    ensures
        read_scheduled(rows) == Err::<Seq<((RecordId, TaskView), int)>, int>(i),
    decreases rows.len() - k,
{
    if k < rows.len() {
        assert(rows.take(k + 1).drop_last() =~= rows.take(k));
        lemma_read_scheduled_err(rows, k + 1, i);
    } else {
        assert(rows.take(k) =~= rows);
    }
}

/// Reads the items of the scheduled-tasks query (see `read_scheduled`).
pub fn read_scheduled_rows(rows: &Vec<ScheduledRow>) -> (r: Result<Vec<(StoredTask, i64)>, usize>)
    ensures
        match r {
            Ok(v) => read_scheduled(rows@.map_values(|x: ScheduledRow| scheduled_row_view(x)))
                == Ok::<Seq<((RecordId, TaskView), int)>, int>(placed_view(v@)),
            Err(i) => read_scheduled(rows@.map_values(|x: ScheduledRow| scheduled_row_view(x)))
                == Err::<Seq<((RecordId, TaskView), int)>, int>(i as int),
        },
{
    let ghost all = rows@.map_values(|x: ScheduledRow| scheduled_row_view(x));
    let mut out: Vec<(StoredTask, i64)> = Vec::new();
    let mut i: usize = 0;
    assert(all.take(0) =~= Seq::<(Option<int>, Option<Option<(RecordId, TaskView)>>)>::empty());
    assert(placed_view(out@) =~= Seq::<((RecordId, TaskView), int)>::empty());
    while i < rows.len()
        invariant
            i <= rows.len(),
            all == rows@.map_values(|x: ScheduledRow| scheduled_row_view(x)),
            read_scheduled(all.take(i as int)) == Ok::<Seq<((RecordId, TaskView), int)>, int>(placed_view(out@)),
        decreases rows.len() - i,
    {
        assert(all.take(i + 1).drop_last() =~= all.take(i as int));
        assert(all.take(i + 1).last() == scheduled_row_view(rows@[i as int]));
        let ghost before = out@;
        match (&rows[i].scheduled_for, &rows[i].out) {
            (Some(at), Some(Some(t))) => {
                let entry = (t.duplicate(), *at);
                out.push(entry);
                assert(placed_view(out@) =~= placed_view(before).push((t@, *at as int)));
            },
            (Some(_), Some(None)) => {
                proof {
                    lemma_read_scheduled_err(all, i + 1, i as int);
                }
                return Err(i);
            },
            _ => {},
        }
        i = i + 1;
    }
    assert(all.take(i as int) =~= all);
    Ok(out)
}

/// Reads the items of the tasks-in-a-list query, in order: an item whose `in` field is
/// not an object (`None`) is left out; an `in` object that does not read as a task
/// (`Some(None)`) makes the reading fail there (its position).
pub open spec fn read_listed(rows: Seq<Option<Option<(RecordId, TaskView)>>>) -> Result<Seq<(RecordId, TaskView)>, int>
    decreases rows.len(),
{
    if rows.len() == 0 {
        Ok(Seq::empty())
    } else {
        match read_listed(rows.drop_last()) {
            Err(i) => Err(i),
            Ok(rest) => match rows.last() {
                Some(Some(t)) => Ok(rest.push(t)),
                Some(None) => Err(rows.len() - 1),
                None => Ok(rest),
            },
        }
    }
}

proof fn lemma_read_listed_err(rows: Seq<Option<Option<(RecordId, TaskView)>>>, k: int, i: int)
    requires
        0 <= k <= rows.len(),
        read_listed(rows.take(k)) == Err::<Seq<(RecordId, TaskView)>, int>(i),
    ensures
        read_listed(rows) == Err::<Seq<(RecordId, TaskView)>, int>(i),
    decreases rows.len() - k,
{
    if k < rows.len() {
        assert(rows.take(k + 1).drop_last() =~= rows.take(k));
        lemma_read_listed_err(rows, k + 1, i);
    } else {
        assert(rows.take(k) =~= rows);
    }
}

pub open spec fn listed_view(rows: Seq<Option<Option<StoredTask>>>) -> Seq<Option<Option<(RecordId, TaskView)>>> {
    rows.map_values(|x: Option<Option<StoredTask>>| match x {
        Some(t) => Some(opt_stored(t)),
        None => None,
    })
}

/// Reads the items of the tasks-in-a-list query (see `read_listed`).
pub fn read_list_rows(rows: &Vec<Option<Option<StoredTask>>>) -> (r: Result<Vec<StoredTask>, usize>)
    ensures
        match r {
            Ok(v) => read_listed(listed_view(rows@)) == Ok::<Seq<(RecordId, TaskView)>, int>(
                v@.map_values(|t: StoredTask| t@),
            ),
            Err(i) => read_listed(listed_view(rows@)) == Err::<Seq<(RecordId, TaskView)>, int>(i as int),
        },
{
    let ghost all = listed_view(rows@);
    let mut out: Vec<StoredTask> = Vec::new();
    let mut i: usize = 0;
    assert(all.take(0) =~= Seq::<Option<Option<(RecordId, TaskView)>>>::empty());
    assert(out@.map_values(|t: StoredTask| t@) =~= Seq::<(RecordId, TaskView)>::empty());
    while i < rows.len()
        invariant
            i <= rows.len(),
            all == listed_view(rows@),
            read_listed(all.take(i as int)) == Ok::<Seq<(RecordId, TaskView)>, int>(out@.map_values(|t: StoredTask| t@)),
        decreases rows.len() - i,
    {
        assert(all.take(i + 1).drop_last() =~= all.take(i as int));
        let ghost before = out@;
        match &rows[i] {
            Some(Some(t)) => {
                let entry = t.duplicate();
                out.push(entry);
                assert(out@.map_values(|t: StoredTask| t@) =~= before.map_values(|t: StoredTask| t@).push(t@));
            },
            Some(None) => {
                proof {
                    lemma_read_listed_err(all, i + 1, i as int);
                }
                return Err(i);
            },
            None => {},
        }
        i = i + 1;
    }
    assert(all.take(i as int) =~= all);
    Ok(out)
}

} // verus!

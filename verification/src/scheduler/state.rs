use vstd::prelude::*;
use crate::model::task::{Task, TaskView};
use crate::model::slot::{Slot, SlotView};
use crate::model::plan::{Plan, PlanView, ScheduledTask, plan_with};
use crate::scheduler::table::{construct_duration_table, duration_table, task_views};
use crate::scheduler::model::{size, StateView, RowView, later, fits, slot_usable, skip_slots, available_time, overdue, timely_in, overdue_in, overdue_of, timely_table, nonempty_rows, discard_overdue, flat, discard_remaining, take_from_row, state_ok, state_ready, row_ok, slot_ok, task_ok, lemma_flat_push, lemma_unusable_prefix_is, lemma_unusable_prefix_bound, lemma_available_time_ok, lemma_slots_suffix_ok, lemma_take_from_row_ok, unusable_prefix, TIME_LIMIT, take_task};

verus! {

/// A row of the duration table: a duration in seconds and the tasks of that duration,
/// least first.
pub type Row<'a> = (i64, Vec<&'a Task>);

pub open spec fn row_view<'a>(row: Row<'a>) -> RowView {
    (row.0 as int, row.1@.map_values(|t: &'a Task| t@))
}

pub open spec fn table_view<'a>(table: Seq<Row<'a>>) -> Seq<RowView> {
    table.map_values(|row: Row<'a>| row_view(row))
}

pub open spec fn slots_view<'a>(slots: Seq<&'a Slot>) -> Seq<SlotView> {
    slots.map_values(|s: &'a Slot| s@)
}

/// A copy of a row's task list.
pub fn copy_tasks<'a>(v: &Vec<&'a Task>) -> (r: Vec<&'a Task>)
    ensures
        r@ == v@,
{
    let mut r: Vec<&'a Task> = Vec::new();
    let mut i: usize = 0;
    while i < v.len()
        invariant
            i <= v.len(),
            r@ == v@.take(i as int),
        decreases v.len() - i,
    {
        r.push(v[i]);
        assert(v@.take(i + 1) =~= v@.take(i as int).push(v@[i as int]));
        i = i + 1;
    }
    assert(v@.take(i as int) =~= v@);
    r
}

/// A copy of a table.
fn copy_table<'a>(table: &Vec<Row<'a>>) -> (r: Vec<Row<'a>>)
    ensures
        table_view(r@) == table_view(table@),
        r@.len() == table@.len(),
{
    let mut r: Vec<Row<'a>> = Vec::new();
    let mut i: usize = 0;
    while i < table.len()
        invariant
            i <= table.len(),
            table_view(r@) == table_view(table@.take(i as int)),
            r@.len() == i,
        decreases table.len() - i,
    {
        let row = &table[i];
        let copy = (row.0, copy_tasks(&row.1));
        r.push(copy);
        assert(table_view(table@.take(i + 1)) =~= table_view(table@.take(i as int)).push(row_view(table@[i as int])));
        assert(table_view(r@) =~= table_view(table@.take(i as int)).push(row_view(table@[i as int])));
        i = i + 1;
    }
    assert(table@.take(i as int) =~= table@);
    r
}

/// A copy of a list of slots.
fn copy_slots<'a>(v: &Vec<&'a Slot>, from: usize) -> (r: Vec<&'a Slot>)
    requires
        from <= v.len(),
    ensures
        r@ == v@.skip(from as int),
{
    let mut r: Vec<&'a Slot> = Vec::new();
    let mut i: usize = from;
    while i < v.len()
        invariant
            from <= i <= v.len(),
            r@ == v@.subrange(from as int, i as int),
        decreases v.len() - i,
    {
        r.push(v[i]);
        assert(v@.subrange(from as int, i + 1) =~= v@.subrange(from as int, i as int).push(v@[i as int]));
        i = i + 1;
    }
    assert(v@.subrange(from as int, i as int) =~= v@.skip(from as int));
    r
}

/// The state of planning at each step: the tasks not yet planned, grouped by
/// duration; the plan so far; the slots still ahead; and the current moment.
pub struct State<'a> {
    table: Vec<Row<'a>>,
    plan: Plan<'a>,
    slots: Vec<&'a Slot>,
    now: i64,
}

impl<'a> View for State<'a> {
    type V = StateView;

    closed spec fn view(&self) -> StateView {
        StateView {
            table: table_view(self.table@),
            plan: self.plan@,
            slots: slots_view(self.slots@),
            now: self.now as int,
        }
    }
}

impl<'a> State<'a> {
    /// The starting state: the tasks grouped by duration, an empty plan, the given
    /// slots and moment.
    pub fn new(tasks: &'a [Task], slots: Vec<&'a Slot>, now: i64) -> (s: State<'a>)
        ensures
            s@ == (StateView {
                table: duration_table(task_views(tasks@)),
                plan: PlanView { tasks: Seq::empty(), discarded: Seq::empty(), score: 0 },
                slots: slots_view(slots@),
                now: now as int,
            }),
            size(s@.table) <= tasks@.len(),
            crate::scheduler::table::table_of(s@.table, task_views(tasks@)),
    {
        let table = construct_duration_table(tasks);
        State::from_parts(table, slots, now)
    }

    /// A state from an already built table.
    pub fn from_parts(table: Vec<Row<'a>>, slots: Vec<&'a Slot>, now: i64) -> (s: State<'a>)
        ensures
            s@ == (StateView {
                table: table_view(table@),
                plan: PlanView { tasks: Seq::empty(), discarded: Seq::empty(), score: 0 },
                slots: slots_view(slots@),
                now: now as int,
            }),
    {
        State { table, plan: Plan::new(), slots, now }
    }

    /// The current moment, as a Unix timestamp in seconds.
    pub fn now(&self) -> (r: i64)
        ensures
            r == self@.now,
    {
        self.now
    }

    /// The tasks not yet planned, grouped by duration.
    pub fn table(&self) -> (r: &Vec<Row<'a>>)
        ensures
            table_view(r@) == self@.table,
    {
        &self.table
    }

    pub fn plan(&self) -> (r: &Plan<'a>)
        ensures
            r@ == self@.plan,
    {
        &self.plan
    }

    pub fn take_plan(self) -> (r: Plan<'a>)
        ensures
            r@ == self@.plan,
    {
        self.plan
    }

    /// The slots still ahead.
    pub fn slots(&self) -> (r: &Vec<&'a Slot>)
        ensures
            slots_view(r@) == self@.slots,
    {
        &self.slots
    }

    /// Removes the rows that hold no task.
    pub fn remove_empty_rows(&mut self)
        ensures
            final(self)@ == (StateView { table: nonempty_rows(old(self)@.table), ..old(self)@ }),
    {
        let ghost old_table = self.table@;
        let mut kept: Vec<Row<'a>> = Vec::new();
        let mut i: usize = 0;
        while i < self.table.len()
            invariant
                i <= self.table.len(),
                self.table@ == old_table,
                table_view(kept@) == nonempty_rows(table_view(old_table.take(i as int))),
            decreases self.table.len() - i,
        {
            let row = &self.table[i];
            let ghost before = table_view(old_table.take(i as int));
            assert(table_view(old_table.take(i + 1)) =~= before.push(row_view(*row)));
            proof {
                before.lemma_filter_push(row_view(*row), |row: RowView| row.1.len() > 0);
            }
            if row.1.len() > 0 {
                let copy = (row.0, copy_tasks(&row.1));
                kept.push(copy);
                assert(table_view(kept@) =~= nonempty_rows(before).push(row_view(*row)));
            }
            i = i + 1;
        }
        assert(old_table.take(i as int) =~= old_table);
        self.table = kept;
    }

    /// Whether some task of the table fits `slot` from `now` on.
    fn slot_usable(&self, slot: &Slot) -> (r: bool)
        requires
            state_ok(self@),
            slot_ok(slot@),
        ensures
            r == slot_usable(self@.table, slot@, self@.now),
    {
        let start = slot.start_secs();
        let end = slot.end_secs();
        let latest = if self.now >= start { self.now } else { start };
        let mut r: usize = 0;
        while r < self.table.len()
            invariant
                r <= self.table.len(),
                state_ok(self@),
                slot_ok(slot@),
                start == slot@.start,
                end == slot@.end,
                latest == later(self@.now, slot@.start),
                forall|r2: int, k2: int| 0 <= r2 < r && 0 <= k2 < self@.table[r2].1.len()
                    ==> !#[trigger] fits(self@.table[r2].1[k2], slot@, self@.now),
            decreases self.table.len() - r,
        {
            let row = &self.table[r];
            let mut k: usize = 0;
            while k < row.1.len()
                invariant
                    r < self.table.len(),
                    row == &self.table[r as int],
                    k <= row.1.len(),
                    state_ok(self@),
                    slot_ok(slot@),
                    start == slot@.start,
                    end == slot@.end,
                    latest == later(self@.now, slot@.start),
                    forall|k2: int| 0 <= k2 < k ==> !#[trigger] fits(self@.table[r as int].1[k2], slot@, self@.now),
                decreases row.1.len() - k,
            {
                let t = row.1[k];
                assert(self@.table[r as int].1[k as int] == t@);
                assert(row_ok(self@.table[r as int]));
                let d = t.estimated_duration();
                if d <= end - latest && t.deadline() >= latest + d {
                    assert(fits(self@.table[r as int].1[k as int], slot@, self@.now));
                    return true;
                }
                k = k + 1;
            }
            r = r + 1;
        }
        false
    }

    /// Removes the leading slots into which no task of the table fits any more: those
    /// that are over, and those with too little time left for any task or for any
    /// task to be done by its deadline.
    pub fn skip_unsuitable_slots(&mut self)
        requires
            state_ok(old(self)@),
        ensures
            final(self)@ == skip_slots(old(self)@),
    {
        let mut count: usize = 0;
        let mut found = false;
        while !found && count < self.slots.len()
            invariant
                count <= self.slots.len(),
                state_ok(self@),
                self@ == old(self)@,
                found ==> count < self.slots.len() && slot_usable(self@.table, self@.slots[count as int], self@.now),
                forall|j: int| 0 <= j < count ==> !slot_usable(self@.table, #[trigger] self@.slots[j], self@.now),
            decreases self.slots.len() - count, if found { 0int } else { 1int },
        {
            assert(self@.slots[count as int] == self.slots@[count as int]@);
            assert(slot_ok(self@.slots[count as int]));
            if self.slot_usable(self.slots[count]) {
                found = true;
            } else {
                count = count + 1;
            }
        }
        proof {
            lemma_unusable_prefix_is(self@.table, self@.slots, self@.now, count as int);
        }
        let rest = copy_slots(&self.slots, count);
        assert(slots_view(rest@) =~= self@.slots.skip(count as int));
        self.slots = rest;
    }

    /// Drops the leading unusable slots; where a slot is left, moves `now` to its start
    /// if that is later and returns the time left in it.
    pub fn get_available_time(&mut self) -> (r: Option<i64>)
        requires
            state_ok(old(self)@),
        ensures
            final(self)@ == available_time(old(self)@).0,
            r matches Some(x) ==> available_time(old(self)@).1 == Some(x as int),
            r is None ==> available_time(old(self)@).1 is None,
    {
        self.skip_unsuitable_slots();
        proof {
            lemma_available_time_ok(old(self)@);
            lemma_unusable_prefix_bound(old(self)@.table, old(self)@.slots, old(self)@.now);
            lemma_slots_suffix_ok(old(self)@.slots, unusable_prefix(old(self)@.table, old(self)@.slots, old(self)@.now) as int);
        }
        if self.slots.len() == 0 {
            return None;
        }
        let slot = self.slots[0];
        assert(self@.slots[0] == slot@);
        assert(slot_ok(slot@));
        let start = slot.start_secs();
        if start > self.now {
            self.now = start;
        }
        Some(slot.end_secs() - self.now)
    }

    /// Gives up on every task left in the table.
    pub fn discard_remaining_tasks(&mut self)
        ensures
            final(self)@ == discard_remaining(old(self)@),
    {
        let mut i: usize = 0;
        while i < self.table.len()
            invariant
                i <= self.table.len(),
                self.table@ == old(self).table@,
                self@ == (StateView {
                    plan: PlanView { discarded: old(self)@.plan.discarded + flat(table_view(self.table@.take(i as int))), ..old(self)@.plan },
                    ..old(self)@
                }),
            decreases self.table.len() - i,
        {
            let ghost before = self@.plan.discarded;
            self.plan.discard_tasks(&self.table[i].1);
            proof {
                let tv = table_view(self.table@.take(i as int));
                assert(table_view(self.table@.take(i + 1)) =~= tv.push(row_view(self.table@[i as int])));
                lemma_flat_push(tv, row_view(self.table@[i as int]));
                assert(old(self)@.plan.discarded + flat(table_view(self.table@.take(i + 1)))
                    =~= before + self.table@[i as int].1@.map_values(|t: &'a Task| t@));
            }
            i = i + 1;
        }
        assert(self.table@.take(i as int) =~= self.table@);
    }

    /// Gives up on the tasks that can no longer be done by their deadlines if started
    /// now, row by row and least first, and removes the rows left empty.
    pub fn discard_overdue_tasks(&mut self)
        requires
            state_ok(old(self)@),
        ensures
            final(self)@ == discard_overdue(old(self)@),
    {
        let ghost old_view = self@;
        let now = self.now;
        let mut timely_rows: Vec<Row<'a>> = Vec::new();
        let mut i: usize = 0;
        while i < self.table.len()
            invariant
                i <= self.table.len(),
                state_ok(old_view),
                now == old_view.now,
                table_view(self.table@) == old_view.table,
                self@.plan == (PlanView {
                    discarded: old_view.plan.discarded + overdue_of(table_view(self.table@.take(i as int)), now as int),
                    ..old_view.plan
                }),
                self@.slots == old_view.slots,
                self@.now == old_view.now,
                table_view(timely_rows@) == timely_table(table_view(self.table@.take(i as int)), now as int),
            decreases self.table.len() - i,
        {
            let row = &self.table[i];
            let ghost rv = row_view(*row);
            assert(rv == old_view.table[i as int]);
            assert(row_ok(rv));
            let mut timely: Vec<&'a Task> = Vec::new();
            let mut late: Vec<&'a Task> = Vec::new();
            let mut k: usize = 0;
            while k < row.1.len()
                invariant
                    i < self.table.len(),
                    row == &self.table[i as int],
                    rv == row_view(*row),
                    row_ok(rv),
                    -2 * TIME_LIMIT <= now <= TIME_LIMIT,
                    k <= row.1.len(),
                    timely@.map_values(|t: &'a Task| t@) == timely_in(rv.1.take(k as int), now as int),
                    late@.map_values(|t: &'a Task| t@) == overdue_in(rv.1.take(k as int), now as int),
                decreases row.1.len() - k,
            {
                let t = row.1[k];
                assert(rv.1[k as int] == t@);
                assert(task_ok(t@));
                let ghost pre = rv.1.take(k as int);
                assert(rv.1.take(k + 1) =~= pre.push(t@));
                proof {
                    pre.lemma_filter_push(t@, |t: TaskView| !overdue(t, now as int));
                    pre.lemma_filter_push(t@, |t: TaskView| overdue(t, now as int));
                }
                if t.deadline() < now + t.estimated_duration() {
                    late.push(t);
                    assert(late@.map_values(|t: &'a Task| t@) =~= overdue_in(pre, now as int).push(t@));
                } else {
                    timely.push(t);
                    assert(timely@.map_values(|t: &'a Task| t@) =~= timely_in(pre, now as int).push(t@));
                }
                k = k + 1;
            }
            assert(rv.1.take(k as int) =~= rv.1);
            let ghost before = self@.plan.discarded;
            self.plan.discard_tasks(&late);
            let d = row.0;
            timely_rows.push((d, timely));
            proof {
                let tv = table_view(self.table@.take(i as int));
                assert(table_view(self.table@.take(i + 1)) =~= tv.push(rv));
                assert(tv.push(rv).drop_last() =~= tv);
                assert(overdue_of(tv.push(rv), now as int) == overdue_of(tv, now as int) + overdue_in(rv.1, now as int));
                assert(timely_table(tv.push(rv), now as int) =~= timely_table(tv, now as int).push((rv.0, timely_in(rv.1, now as int))));
                assert(table_view(timely_rows@) =~= timely_table(tv, now as int).push((rv.0, timely_in(rv.1, now as int))));
                assert(self@.plan.discarded =~= old_view.plan.discarded + overdue_of(table_view(self.table@.take(i + 1)), now as int));
            }
            i = i + 1;
        }
        assert(self.table@.take(i as int) =~= self.table@);
        self.table = timely_rows;
        self.remove_empty_rows();
    }

    /// The next state in which the greatest task of row `i` is planned at `now`.
    pub fn next_from_row(&self, i: usize) -> (next: State<'a>)
        requires
            state_ready(self@),
            i < self@.table.len(),
            self@.table[i as int].1.len() > 0,
        ensures
            next@ == take_from_row(self@, i as int),
    {
        proof {
            lemma_take_from_row_ok(self@, i as int);
        }
        let mut table = copy_table(&self.table);
        let row = &self.table[i];
        let mut tasks = copy_tasks(&row.1);
        let task = tasks.pop().unwrap();
        let d = row.0;
        let ghost rv = row_view(*row);
        assert(rv.1.last() == task@);
        assert(tasks@.map_values(|t: &'a Task| t@) =~= rv.1.drop_last());
        table.set(i, (d, tasks));
        assert(table_view(table@) =~= self@.table.update(i as int, (rv.0, rv.1.drop_last())));
        let plan = self.plan.duplicate().with_task(ScheduledTask::new(task, self.now));
        let slots = copy_slots(&self.slots, 0);
        assert(self.slots@.skip(0) =~= self.slots@);
        State { table, plan, slots, now: self.now + d }
    }

    /// The next state in which the greatest task of duration `duration` is planned at
    /// `now`.
    pub fn next_from_duration(&self, duration: i64) -> (next: State<'a>)
        requires
            state_ready(self@),
            exists|i: int| 0 <= i < self@.table.len() && self@.table[i].0 == duration && self@.table[i].1.len() > 0,
        ensures
            exists|i: int| 0 <= i < self@.table.len() && self@.table[i].0 == duration
                && next@ == take_from_row(self@, i),
    {
        let mut i: usize = 0;
        while i < self.table.len()
            invariant
                i <= self.table.len(),
                table_view(self.table@) == self@.table,
                state_ready(self@),
                forall|j: int| 0 <= j < i ==> #[trigger] self@.table[j].0 != duration || self@.table[j].1.len() == 0,
            decreases self.table.len() - i,
        {
            assert(self@.table[i as int] == row_view(self.table@[i as int]));
            if self.table[i].0 == duration && self.table[i].1.len() > 0 {
                return self.next_from_row(i);
            }
            i = i + 1;
        }
        proof {
            let j = choose|i: int| 0 <= i < self@.table.len() && self@.table[i].0 == duration && self@.table[i].1.len() > 0;
            assert(self@.table[j].0 != duration || self@.table[j].1.len() == 0);
        }
        unreached()
    }

    /// The next state in which `task` is planned at `now`: the tasks of its rank are
    /// removed from the row of its duration, which must exist.
    pub fn create_next_state(&self, task: &'a Task) -> (next: State<'a>)
        requires
            state_ok(self@),
            task_ok(task@),
            self@.plan.score + 9 <= u64::MAX,
            exists|i: int| 0 <= i < self@.table.len() && self@.table[i].0 == task@.duration,
        ensures
            exists|i: int| 0 <= i < self@.table.len() && self@.table[i].0 == task@.duration
                && next@ == take_task(self@, i, task@),
    {
        let d = task.estimated_duration();
        let mut i: usize = 0;
        while i < self.table.len() && self.table[i].0 != d
            invariant
                i <= self.table.len(),
                table_view(self.table@) == self@.table,
                d == task@.duration,
                forall|j: int| 0 <= j < i ==> #[trigger] self@.table[j].0 != d,
            decreases self.table.len() - i,
        {
            assert(self@.table[i as int].0 == self.table@[i as int].0);
            i = i + 1;
        }
        if i == self.table.len() {
            proof {
                let j = choose|j: int| 0 <= j < self@.table.len() && self@.table[j].0 == task@.duration;
                assert(self@.table[j].0 != d);
            }
            unreached()
        } else {
            assert(self@.table[i as int].0 == self.table@[i as int].0);
            let ghost rv = self@.table[i as int];
            let row = &self.table[i];
            let mut kept: Vec<&'a Task> = Vec::new();
            let mut k: usize = 0;
            let ghost keep = |x: TaskView| !crate::model::task::same_rank(x, task@);
            while k < row.1.len()
                invariant
                    i < self.table.len(),
                    row == &self.table[i as int],
                    rv == row_view(*row),
                    k <= row.1.len(),
                    keep == (|x: TaskView| !crate::model::task::same_rank(x, task@)),
                    kept@.map_values(|t: &'a Task| t@) == rv.1.take(k as int).filter(keep),
                decreases row.1.len() - k,
            {
                let t = row.1[k];
                assert(rv.1[k as int] == t@);
                let ghost pre = rv.1.take(k as int);
                assert(rv.1.take(k + 1) =~= pre.push(t@));
                proof {
                    pre.lemma_filter_push(t@, keep);
                }
                if !t.ranks_with(task) {
                    assert(keep(t@));
                    kept.push(t);
                    assert(kept@.map_values(|t: &'a Task| t@) =~= pre.filter(keep).push(t@));
                } else {
                    assert(!keep(t@));
                    assert(rv.1.take(k + 1).filter(keep) == pre.filter(keep));
                }
                k = k + 1;
            }
            assert(rv.1.take(k as int) =~= rv.1);
            let mut table = copy_table(&self.table);
            table.set(i, (d, kept));
            assert(table_view(table@) =~= self@.table.update(i as int, (rv.0, rv.1.filter(keep))));
            let plan = self.plan.duplicate().with_task(ScheduledTask::new(task, self.now));
            let slots = copy_slots(&self.slots, 0);
            assert(self.slots@.skip(0) =~= self.slots@);
            let next = State { table, plan, slots, now: self.now + d };
            assert(next@ == take_task(self@, i as int, task@));
            next
        }
    }

    /// A copy of this state.
    pub fn duplicate(&self) -> (s: State<'a>)
        ensures
            s@ == self@,
    {
        let table = copy_table(&self.table);
        let slots = copy_slots(&self.slots, 0);
        assert(self.slots@.skip(0) =~= self.slots@);
        State { table, plan: self.plan.duplicate(), slots, now: self.now }
    }
}

} // verus!

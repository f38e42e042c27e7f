pub mod model;
pub mod state;
pub mod table;
pub mod laws;
pub mod run;

use vstd::prelude::*;
use crate::model::plan::{Plan, PlanView};
use crate::scheduler::model::{
    StateView, RowView, plan_from, best_plan, size, state_ok, state_ready, available_time, discard_overdue,
    nonempty_rows, lemma_nonempty_rows_ok, lemma_available_time_ok, lemma_some_row_fits,
    lemma_discard_overdue_ready, lemma_discard_overdue_size, lemma_take_from_row_ok,
    lemma_best_plan_exists,
};
use crate::scheduler::state::{State, table_view, slots_view};
use crate::scheduler::table::{duration_table, task_views, table_of, in_table, lemma_table_of_unique};
use crate::scheduler::model::{task_ok, slot_ok, slots_ok, within_limit, table_ok, row_ok, score_limit, TIME_LIMIT};
use crate::model::task::{Task, TaskView};
use crate::model::slot::{Slot, SlotView};

verus! {

pub open spec fn plan_option_view<'a>(o: Option<Plan<'a>>) -> Option<PlanView> {
    match o {
        Some(p) => Some(p@),
        None => None,
    }
}

/// Builds the plan from a state: see `plan_from`.
pub fn schedule_from<'a>(start: State<'a>) -> (p: Plan<'a>)
    requires
        state_ok(start@),
    ensures
        p@ == plan_from(start@),
    decreases size(start@.table),
{
    let ghost s0 = start@;
    let mut state = start;
    state.remove_empty_rows();
    let ghost s1 = state@;
    proof {
        lemma_nonempty_rows_ok(s0.table);
        assert(s1 == (StateView { table: nonempty_rows(s0.table), ..s0 }));
    }
    let avail = state.get_available_time();
    match avail {
        None => {
            state.discard_remaining_tasks();
            state.take_plan()
        },
        Some(remaining) => {
            let ghost s2 = state@;
            proof {
                lemma_available_time_ok(s1);
                lemma_some_row_fits(s1);
            }
            state.discard_overdue_tasks();
            proof {
                lemma_discard_overdue_ready(s2);
                lemma_discard_overdue_size(s2);
            }
            let ghost s3 = state@;
            let mut best: Option<Plan<'a>> = None;
            let mut i: usize = state.table().len();
            while i > 0
                invariant
                    i <= s3.table.len(),
                    s0 == start@,
                    state@ == s3,
                    s3 == discard_overdue(s2),
                    state_ready(s3),
                    size(s3.table) <= size(s0.table),
                    plan_option_view(best) == best_plan(s3, remaining as int, i as int),
                decreases i,
            {
                i = i - 1;
                let table = state.table();
                assert(s3.table[i as int] == crate::scheduler::state::row_view(table@[i as int]));
                let key = table[i].0;
                let len = table[i].1.len();
                if key <= remaining && len > 0 {
                    proof {
                        lemma_take_from_row_ok(s3, i as int);
                    }
                    let next = state.next_from_row(i);
                    assert(size(next@.table) < size(s0.table));
                    let p = schedule_from(next);
                    best = match best {
                        None => Some(p),
                        Some(q) => if q.score() >= p.score() {
                            Some(q)
                        } else {
                            Some(p)
                        },
                    };
                }
            }
            proof {
                let j = choose|j: int| 0 <= j < s3.table.len() && s3.table[j].0 <= remaining as int
                    && s3.table[j].1.len() > 0;
                lemma_best_plan_exists(s3, remaining as int, j);
                assert(best_plan(s3, remaining as int, 0) is Some);
            }
            match best {
                Some(p) => p,
                None => unreached(),
            }
        },
    }
}


/// Inputs that the scheduler can work with: every task duration, deadline, slot
/// bound and the starting moment within `TIME_LIMIT` seconds of the Unix epoch, and
/// few enough tasks that a plan's score cannot overflow.
pub open spec fn inputs_ok(tasks: Seq<TaskView>, slots: Seq<SlotView>, now: int) -> bool {
    &&& forall|i: int| 0 <= i < tasks.len() ==> #[trigger] task_ok(tasks[i])
    &&& slots_ok(slots)
    &&& within_limit(now)
    &&& 9 * tasks.len() <= score_limit()
}

/// The state that planning starts from.
pub open spec fn initial_state(tasks: Seq<TaskView>, slots: Seq<SlotView>, now: int) -> StateView {
    StateView {
        table: duration_table(tasks),
        plan: PlanView { tasks: Seq::empty(), discarded: Seq::empty(), score: 0 },
        slots,
        now,
    }
}

/// The plan that the scheduler builds for the given tasks, slots and moment.
pub open spec fn schedule_plan(tasks: Seq<TaskView>, slots: Seq<SlotView>, now: int) -> PlanView {
    plan_from(initial_state(tasks, slots, now))
}

/// The views of a list of slots.
pub open spec fn slot_views(slots: Seq<Slot>) -> Seq<SlotView> {
    slots.map_values(|s: Slot| s@)
}

pub proof fn lemma_initial_state_ok(tasks: Seq<TaskView>, slots: Seq<SlotView>, now: int)
    requires
        inputs_ok(tasks, slots, now),
    ensures
        state_ok(initial_state(tasks, slots, now)),
{
    crate::scheduler::table::lemma_duration_table(tasks);
    let t = duration_table(tasks);
    let s = initial_state(tasks, slots, now);
    assert forall|r: int| 0 <= r < t.len() implies #[trigger] row_ok(t[r]) by {
        assert forall|k: int| 0 <= k < t[r].1.len() implies #[trigger] t[r].1[k].duration == t[r].0 && task_ok(t[r].1[k]) by {
            assert(in_table(t, t[r].1[k]));
            assert(tasks.contains(t[r].1[k]));
        }
        assert(t[r].1.len() > 0);
        assert(t[r].1[0].duration == t[r].0 && task_ok(t[r].1[0]));
    }
}

/// Plans tasks into the slots ahead, starting from a given moment.
pub struct Scheduler<'a> {
    tasks: &'a [Task],
    upcoming_slots: &'a [Slot],
    now: i64,
}

impl<'a> View for Scheduler<'a> {
    type V = (Seq<TaskView>, Seq<SlotView>, int);

    closed spec fn view(&self) -> (Seq<TaskView>, Seq<SlotView>, int) {
        (task_views(self.tasks@), slot_views(self.upcoming_slots@), self.now as int)
    }
}

/// `chrono::Local::now().naive_local()`, read as whole seconds since the epoch of the
/// local wall clock and the nanoseconds past that second. Nothing is claimed of the
/// values: they are the current time.
#[verifier::external_body]
fn local_now() -> (i64, u32) {
    let t = chrono::Local::now().naive_local().and_utc();
    (t.timestamp(), t.timestamp_subsec_nanos())
}

/// A clock reading of `secs` seconds and `nanos` nanoseconds, rounded up to a whole
/// second (at most `i64::MAX`).
pub open spec fn seconds_up(secs: int, nanos: int) -> int {
    let up = secs + (nanos + 999_999_999) / 1_000_000_000;
    if up > i64::MAX {
        i64::MAX as int
    } else {
        up
    }
}

impl<'a> Scheduler<'a> {
    /// A scheduler for the given tasks and slots, planning from `now` (Unix timestamp,
    /// seconds).
    pub fn new(tasks: &'a [Task], upcoming_slots: &'a [Slot], now: i64) -> (s: Scheduler<'a>)
        ensures
            s@ == (task_views(tasks@), slot_views(upcoming_slots@), now as int),
    {
        Scheduler { tasks, upcoming_slots, now }
    }

    /// A scheduler for the given tasks and slots, planning from a clock reading of
    /// `secs` seconds and `nanos` nanoseconds. Every other time is a whole second, so
    /// the reading is rounded up to a whole second: each decision (what fits in the time
    /// left in a slot, and by its deadline) is then the one made at the exact moment.
    pub fn new_at(tasks: &'a [Task], upcoming_slots: &'a [Slot], secs: i64, nanos: u32) -> (s: Scheduler<'a>)
        ensures
            s@ == (task_views(tasks@), slot_views(upcoming_slots@), seconds_up(secs as int, nanos as int)),
    {
        let up: i128 = (nanos as i128 + 999_999_999) / 1_000_000_000;
        let total: i128 = secs as i128 + up;
        let now: i64 = if total > i64::MAX as i128 {
            i64::MAX
        } else {
            total as i64
        };
        Scheduler::new(tasks, upcoming_slots, now)
    }

    /// A scheduler for the given tasks and slots, planning from the current local time
    /// (see `new_at`).
    pub fn new_with_local_datetime(tasks: &'a [Task], upcoming_slots: &'a [Slot]) -> (s: Scheduler<'a>)
        ensures
            s@.0 == task_views(tasks@),
            s@.1 == slot_views(upcoming_slots@),
    {
        let (secs, nanos) = local_now();
        Scheduler::new_at(tasks, upcoming_slots, secs, nanos)
    }

    /// Builds the plan: see `schedule_plan`.
    pub fn schedule(&self) -> (p: Plan<'a>)
        requires
            inputs_ok(self@.0, self@.1, self@.2),
        ensures
            p@ == schedule_plan(self@.0, self@.1, self@.2),
    {
        let mut slots: Vec<&'a Slot> = Vec::new();
        let mut i: usize = 0;
        while i < self.upcoming_slots.len()
            invariant
                i <= self.upcoming_slots@.len(),
                slots_view(slots@) == slot_views(self.upcoming_slots@).take(i as int),
            decreases self.upcoming_slots.len() - i,
        {
            slots.push(&self.upcoming_slots[i]);
            assert(slot_views(self.upcoming_slots@).take(i + 1)
                =~= slot_views(self.upcoming_slots@).take(i as int).push(self.upcoming_slots@[i as int]@));
            assert(slots_view(slots@) =~= slot_views(self.upcoming_slots@).take(i as int).push(self.upcoming_slots@[i as int]@));
            i = i + 1;
        }
        assert(slot_views(self.upcoming_slots@).take(i as int) =~= slot_views(self.upcoming_slots@));
        let state = State::new(self.tasks, slots, self.now);
        proof {
            lemma_initial_state_ok(self@.0, self@.1, self@.2);
        }
        schedule_from(state)
    }
}
} // verus!


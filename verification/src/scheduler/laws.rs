use vstd::prelude::*;
use crate::model::task::{TaskView, priority_weight};
use crate::model::slot::SlotView;
use crate::scheduler::table::in_table;
use crate::scheduler::run::{position_of, slot_position, stored_placements};
use crate::records::RecordId;
use crate::model::plan::{PlanView, plan_with, weight_sum};
use crate::scheduler::model::{
    StateView, RowView, plan_from, best_plan, available_time, skip_slots, discard_overdue,
    discard_remaining, take_from_row, nonempty_rows, flat, size, overdue, later, unusable_prefix,
    state_ok, state_ready, lemma_nonempty_rows_ok, lemma_available_time_ok, lemma_discard_overdue_ready,
    lemma_discard_overdue_size, lemma_take_from_row_ok, lemma_take_from_row_flat, lemma_nonempty_rows_flat,
    lemma_unusable_prefix_bound,
};

verus! {

/// The planned task lies within one of the slots.
pub open spec fn placed_in(e: (TaskView, int), slots: Seq<SlotView>) -> bool {
    exists|j: int| 0 <= j < slots.len() && #[trigger] slots[j].start <= e.1 && e.1 + e.0.duration <= slots[j].end
}

/// The planned task ends by its deadline.
pub open spec fn on_time(e: (TaskView, int)) -> bool {
    e.1 + e.0.duration <= e.0.deadline
}

/// Each planned task starts no earlier than the previous one ends.
pub open spec fn one_after_another(tasks: Seq<(TaskView, int)>) -> bool {
    forall|k: int| 0 <= k < tasks.len() - 1 ==> #[trigger] tasks[k].1 + tasks[k].0.duration <= tasks[k + 1].1
}

/// The plan is feasible for the given slots and starting moment.
pub open spec fn plan_sound(p: PlanView, slots0: Seq<SlotView>, now0: int) -> bool {
    &&& forall|k: int| 0 <= k < p.tasks.len() ==> placed_in(#[trigger] p.tasks[k], slots0) && on_time(p.tasks[k])
    &&& one_after_another(p.tasks)
    &&& p.score == weight_sum(p.tasks)
    &&& p.tasks.len() > 0 ==> p.tasks[0].1 >= now0
}

pub open spec fn is_suffix(s: Seq<SlotView>, of: Seq<SlotView>) -> bool {
    s.len() <= of.len() && s == of.skip(of.len() - s.len())
}

/// A state reached while planning from the given slots and moment.
pub open spec fn state_sound(s: StateView, slots0: Seq<SlotView>, now0: int) -> bool {
    &&& plan_sound(s.plan, slots0, now0)
    &&& is_suffix(s.slots, slots0)
    &&& s.plan.tasks.len() == 0 ==> s.now >= now0
    &&& s.plan.tasks.len() > 0 ==> s.plan.tasks.last().1 + s.plan.tasks.last().0.duration <= s.now
}

/// Everything a state holds: the planned tasks, the tasks given up on, and the tasks
/// still in the table.
pub open spec fn all_tasks(s: StateView) -> Seq<TaskView> {
    s.plan.tasks.map_values(|e: (TaskView, int)| e.0) + s.plan.discarded + flat(s.table)
}

/// The tasks that a plan accounts for: planned or given up on.
pub open spec fn accounted(p: PlanView) -> Seq<TaskView> {
    p.tasks.map_values(|e: (TaskView, int)| e.0) + p.discarded
}

proof fn lemma_skip_suffix(s: StateView, slots0: Seq<SlotView>)
    requires
        is_suffix(s.slots, slots0),
    ensures
        is_suffix(skip_slots(s).slots, slots0),
{
    lemma_unusable_prefix_bound(s.table, s.slots, s.now);
    let k = unusable_prefix(s.table, s.slots, s.now) as int;
    let off = slots0.len() - s.slots.len();
    assert(s.slots.skip(k) =~= slots0.skip(off + k));
}

proof fn lemma_take_sound(s: StateView, r: int, i: int, slots0: Seq<SlotView>, now0: int)
    requires
        state_ready(s),
        state_sound(s, slots0, now0),
        s.slots.len() > 0,
        s.slots[0].start <= s.now,
        r == s.slots[0].end - s.now,
        0 <= i < s.table.len(),
        s.table[i].0 <= r,
        s.table[i].1.len() > 0,
    ensures
        state_sound(take_from_row(s, i), slots0, now0),
{
    let row = s.table[i];
    let t = row.1.last();
    let e = (t, s.now);
    let k = row.1.len() - 1;
    assert(crate::scheduler::model::row_ok(row));
    assert(row.1[k].duration == row.0);
    assert(!overdue(s.table[i].1[k], s.now));
    let s2 = take_from_row(s, i);
    let off = slots0.len() - s.slots.len();
    assert(slots0[off] == s.slots[0]);
    assert(placed_in(e, slots0));
    let p = s.plan;
    let p2 = s2.plan;
    assert(p2.tasks == p.tasks.push(e));
    assert(p2.tasks.drop_last() =~= p.tasks);
    assert forall|k2: int| 0 <= k2 < p2.tasks.len() implies placed_in(#[trigger] p2.tasks[k2], slots0)
        && on_time(p2.tasks[k2]) by {
        if k2 < p.tasks.len() {
            assert(p2.tasks[k2] == p.tasks[k2]);
        }
    }
    assert forall|k2: int| 0 <= k2 < p2.tasks.len() - 1 implies #[trigger] p2.tasks[k2].1 + p2.tasks[k2].0.duration
        <= p2.tasks[k2 + 1].1 by {
        if k2 < p.tasks.len() - 1 {
            assert(p2.tasks[k2] == p.tasks[k2]);
            assert(p2.tasks[k2 + 1] == p.tasks[k2 + 1]);
        } else {
            assert(p2.tasks[k2] == p.tasks.last());
        }
    }
    if p.tasks.len() > 0 {
        assert(p2.tasks[0] == p.tasks[0]);
    }
}

/// Planning from a sound state gives a sound plan.
pub proof fn lemma_plan_from_sound(s: StateView, slots0: Seq<SlotView>, now0: int)
    requires
        state_ok(s),
        state_sound(s, slots0, now0),
    ensures
        plan_sound(plan_from(s), slots0, now0),
    decreases size(s.table), 1nat, 0nat,
{
    let s1 = StateView { table: nonempty_rows(s.table), ..s };
    lemma_nonempty_rows_ok(s.table);
    let (s2, avail) = available_time(s1);
    lemma_available_time_ok(s1);
    lemma_skip_suffix(s1, slots0);
    match avail {
        None => {},
        Some(r) => {
            let s3 = discard_overdue(s2);
            lemma_discard_overdue_ready(s2);
            lemma_discard_overdue_size(s2);
            let sk = skip_slots(s1);
            assert(s2.now == later(sk.now, sk.slots[0].start));
            if s1.plan.tasks.len() == 0 {
                assert(s2.now >= now0);
            }
            lemma_best_plan_sound(s3, r, 0, slots0, now0);
        },
    }
}

pub proof fn lemma_best_plan_sound(s: StateView, r: int, i: int, slots0: Seq<SlotView>, now0: int)
    requires
        state_ready(s),
        state_sound(s, slots0, now0),
        s.slots.len() > 0,
        s.slots[0].start <= s.now,
        r == s.slots[0].end - s.now,
    ensures
        best_plan(s, r, i) matches Some(p) ==> plan_sound(p, slots0, now0),
    decreases size(s.table), 0nat, (if 0 <= i <= s.table.len() { s.table.len() - i } else { 0 }) as nat,
{
    if 0 <= i < s.table.len() {
        lemma_best_plan_sound(s, r, i + 1, slots0, now0);
        if s.table[i].0 <= r && s.table[i].1.len() > 0 {
            lemma_take_from_row_ok(s, i);
            lemma_take_sound(s, r, i, slots0, now0);
            lemma_plan_from_sound(take_from_row(s, i), slots0, now0);
        }
    }
}

/// Planning from a state accounts for every task the state holds, each exactly as
/// often as the state holds it.
pub proof fn lemma_plan_from_accounts(s: StateView)
    requires
        state_ok(s),
    ensures
        accounted(plan_from(s)).to_multiset() == all_tasks(s).to_multiset(),
    decreases size(s.table), 1nat, 0nat,
{
    broadcast use vstd::seq_lib::group_to_multiset_ensures;
    let s1 = StateView { table: nonempty_rows(s.table), ..s };
    lemma_nonempty_rows_ok(s.table);
    lemma_nonempty_rows_flat(s.table);
    assert(all_tasks(s1) == all_tasks(s));
    let (s2, avail) = available_time(s1);
    lemma_available_time_ok(s1);
    assert(all_tasks(s2) == all_tasks(s1));
    match avail {
        None => {
            let p = discard_remaining(s2).plan;
            assert(accounted(p) =~= all_tasks(s2));
        },
        Some(r) => {
            let s3 = discard_overdue(s2);
            lemma_discard_overdue_ready(s2);
            lemma_discard_overdue_size(s2);
            let m = s2.plan.tasks.map_values(|e: (TaskView, int)| e.0);
            assert(s3.plan.tasks == s2.plan.tasks);
            vstd::seq_lib::lemma_multiset_commutative(m + s2.plan.discarded, flat(s2.table));
            vstd::seq_lib::lemma_multiset_commutative(m + s3.plan.discarded, flat(s3.table));
            vstd::seq_lib::lemma_multiset_commutative(m + s2.plan.discarded, crate::scheduler::model::overdue_of(s2.table, s2.now));
            assert(m + s3.plan.discarded =~= (m + s2.plan.discarded) + crate::scheduler::model::overdue_of(s2.table, s2.now));
            assert(all_tasks(s3).to_multiset() =~= all_tasks(s2).to_multiset());
            lemma_best_plan_accounts(s3, r, 0);
            crate::scheduler::model::lemma_some_row_fits(s1);
            let j = choose|j: int| 0 <= j < s3.table.len() && s3.table[j].0 <= r && s3.table[j].1.len() > 0;
            crate::scheduler::model::lemma_best_plan_exists(s3, r, j);
        },
    }
}

pub proof fn lemma_best_plan_accounts(s: StateView, r: int, i: int)
    requires
        state_ready(s),
    ensures
        best_plan(s, r, i) matches Some(p) ==> accounted(p).to_multiset() == all_tasks(s).to_multiset(),
    decreases size(s.table), 0nat, (if 0 <= i <= s.table.len() { s.table.len() - i } else { 0 }) as nat,
{
    broadcast use vstd::seq_lib::group_to_multiset_ensures;
    if 0 <= i < s.table.len() {
        lemma_best_plan_accounts(s, r, i + 1);
        if s.table[i].0 <= r && s.table[i].1.len() > 0 {
            lemma_take_from_row_ok(s, i);
            let s2 = take_from_row(s, i);
            lemma_plan_from_accounts(s2);
            lemma_take_from_row_flat(s.table, i);
            let t = s.table[i].1.last();
            let m = s.plan.tasks.map_values(|e: (TaskView, int)| e.0);
            let m2 = s2.plan.tasks.map_values(|e: (TaskView, int)| e.0);
            assert(m2 =~= m.push(t));
            vstd::seq_lib::lemma_multiset_commutative(m + s.plan.discarded, flat(s.table));
            vstd::seq_lib::lemma_multiset_commutative(m2 + s2.plan.discarded, flat(s2.table));
            vstd::seq_lib::lemma_multiset_commutative(m, s.plan.discarded);
            vstd::seq_lib::lemma_multiset_commutative(m2, s2.plan.discarded);
            assert(m2.to_multiset() =~= m.to_multiset().insert(t));
            assert(all_tasks(s2).to_multiset() =~= all_tasks(s).to_multiset());
        }
    }
}


proof fn lemma_flat_contains(table: Seq<RowView>, x: TaskView)
    ensures
        flat(table).contains(x) <==> in_table(table, x),
    decreases table.len(),
{
    if table.len() > 0 {
        lemma_flat_contains(table.drop_last(), x);
        let f = flat(table.drop_last());
        let last = table.last().1;
        if flat(table).contains(x) {
            let k = choose|k: int| 0 <= k < flat(table).len() && flat(table)[k] == x;
            if k < f.len() {
                assert(f[k] == x);
                let (r, k2) = choose|r: int, k2: int| 0 <= r < table.drop_last().len()
                    && 0 <= k2 < table.drop_last()[r].1.len() && table.drop_last()[r].1[k2] == x;
                assert(table[r].1[k2] == x);
            } else {
                assert(last[k - f.len()] == x);
                assert(table[table.len() - 1].1[k - f.len()] == x);
            }
        }
        if in_table(table, x) {
            let (r, k2) = choose|r: int, k2: int| 0 <= r < table.len() && 0 <= k2 < table[r].1.len() && table[r].1[k2] == x;
            if r < table.len() - 1 {
                assert(table.drop_last()[r].1[k2] == x);
                let k = choose|k: int| 0 <= k < f.len() && f[k] == x;
                assert(flat(table)[k] == x);
            } else {
                assert(flat(table)[f.len() + k2] == x);
            }
        }
    }
}

proof fn lemma_flat_no_duplicates(table: Seq<RowView>)
    requires
        crate::scheduler::table::table_wf(table),
    ensures
        flat(table).no_duplicates(),
    decreases table.len(),
{
    if table.len() > 0 {
        let t0 = table.drop_last();
        assert(crate::scheduler::table::table_wf(t0)) by {
            assert forall|r: int| 0 <= r < t0.len() implies #[trigger] t0[r] == table[r] by {}
        }
        lemma_flat_no_duplicates(t0);
        let f = flat(t0);
        let last = table.last();
        let n = table.len() - 1;
        assert(table[n] == last);
        assert forall|a: int, b: int| 0 <= a < b < flat(table).len() implies flat(table)[a] != flat(table)[b] by {
            if b < f.len() {
            } else if a >= f.len() {
                assert(crate::scheduler::table::row_sorted(table[n].1));
                assert(task_lt_of(last.1, a - f.len(), b - f.len()));
                crate::model::task::lemma_task_lt_strict(last.1[a - f.len()], last.1[b - f.len()]);
            } else {
                let x = f[a];
                assert(f.contains(x));
                lemma_flat_contains(t0, x);
                let (r, k2) = choose|r: int, k2: int| 0 <= r < t0.len() && 0 <= k2 < t0[r].1.len() && t0[r].1[k2] == x;
                assert(table[r].1[k2] == x);
                assert(x.duration == table[r].0);
                assert(table[r].0 < table[n].0);
                assert(flat(table)[b] == last.1[b - f.len()]);
                assert(last.1[b - f.len()].duration == table[n].0);
            }
        }
    }
}

spec fn task_lt_of(row: Seq<TaskView>, a: int, b: int) -> bool {
    crate::model::task::task_lt(row[a], row[b])
}

/// What the scheduler plans is feasible: every planned task lies within one of the
/// given slots and ends by its deadline; each starts no earlier than the previous one
/// ends, and the first no earlier than the moment planning starts from; and the plan's
/// score is the total weight of its tasks.
pub proof fn law_plan_is_feasible(tasks: Seq<TaskView>, slots: Seq<SlotView>, now: int)
    requires
        crate::scheduler::inputs_ok(tasks, slots, now),
    ensures
        plan_sound(crate::scheduler::schedule_plan(tasks, slots, now), slots, now),
{
    let s = crate::scheduler::initial_state(tasks, slots, now);
    crate::scheduler::lemma_initial_state_ok(tasks, slots, now);
    assert(s.slots.skip(0) =~= slots);
    assert(weight_sum(s.plan.tasks) == 0);
    lemma_plan_from_sound(s, slots, now);
}

/// When no task has a negative duration, no task is planned before the moment
/// planning starts from.
pub proof fn law_nothing_planned_in_the_past(tasks: Seq<TaskView>, slots: Seq<SlotView>, now: int)
    requires
        crate::scheduler::inputs_ok(tasks, slots, now),
        forall|i: int| 0 <= i < tasks.len() ==> #[trigger] tasks[i].duration >= 0,
    ensures
        ({
            let p = crate::scheduler::schedule_plan(tasks, slots, now);
            forall|k: int| 0 <= k < p.tasks.len() ==> #[trigger] p.tasks[k].1 >= now
        }),
{
    law_plan_is_feasible(tasks, slots, now);
    law_every_task_accounted_for(tasks, slots, now);
    let p = crate::scheduler::schedule_plan(tasks, slots, now);
    let m = p.tasks.map_values(|e: (TaskView, int)| e.0);
    assert forall|k: int| 0 <= k < p.tasks.len() implies p.tasks[k].0.duration >= 0 by {
        assert(accounted(p)[k] == p.tasks[k].0);
        assert(accounted(p).contains(p.tasks[k].0));
        broadcast use vstd::seq_lib::group_to_multiset_ensures;
        assert(accounted(p).to_multiset().count(p.tasks[k].0) > 0);
        assert(tasks.contains(p.tasks[k].0));
    }
    assert forall|k: int| 0 <= k < p.tasks.len() implies #[trigger] p.tasks[k].1 >= now by {
        lemma_starts_increase(p.tasks, k, now);
    }
}

proof fn lemma_starts_increase(tasks: Seq<(TaskView, int)>, k: int, now: int)
    requires
        0 <= k < tasks.len(),
        one_after_another(tasks),
        tasks[0].1 >= now,
        forall|j: int| 0 <= j < tasks.len() ==> tasks[j].0.duration >= 0,
    ensures
        tasks[k].1 >= now,
    decreases k,
{
    if k > 0 {
        lemma_starts_increase(tasks, k - 1, now);
        assert(tasks[k - 1].1 + tasks[k - 1].0.duration <= tasks[k].1);
    }
}

/// Every task given to the scheduler ends up either planned or given up on, exactly
/// once; tasks that are equal in every field count as one.
pub proof fn law_every_task_accounted_for(tasks: Seq<TaskView>, slots: Seq<SlotView>, now: int)
    requires
        crate::scheduler::inputs_ok(tasks, slots, now),
    ensures
        forall|x: TaskView| #[trigger] accounted(crate::scheduler::schedule_plan(tasks, slots, now)).to_multiset().count(x)
            == if tasks.contains(x) { 1nat } else { 0nat },
{
    broadcast use vstd::seq_lib::group_to_multiset_ensures;
    let s = crate::scheduler::initial_state(tasks, slots, now);
    crate::scheduler::lemma_initial_state_ok(tasks, slots, now);
    crate::scheduler::table::lemma_duration_table(tasks);
    lemma_plan_from_accounts(s);
    let f = flat(s.table);
    assert(all_tasks(s) =~= f);
    lemma_flat_no_duplicates(s.table);
    f.lemma_multiset_has_no_duplicates();
    assert forall|x: TaskView| #[trigger] f.to_multiset().count(x) == if tasks.contains(x) { 1nat } else { 0nat } by {
        lemma_flat_contains(s.table, x);
    }
}
} // verus!

verus! {

/// Row `i` of the table holds a task and its duration fits within `r` seconds: the
/// scheduler may continue by planning the greatest task of that row.
pub open spec fn row_fits(s: StateView, r: int, i: int) -> bool {
    &&& 0 <= i < s.table.len()
    &&& s.table[i].0 <= r
    &&& s.table[i].1.len() > 0
}

proof fn lemma_best_plan_above(s: StateView, r: int, k: int, i: int)
    requires
        0 <= k <= i,
        row_fits(s, r, i),
    ensures
        best_plan(s, r, k) is Some,
        best_plan(s, r, k)->0.score >= plan_from(take_from_row(s, i)).score,
    decreases i - k,
{
    if k < i {
        lemma_best_plan_above(s, r, k + 1, i);
    }
}

proof fn lemma_best_plan_chosen(s: StateView, r: int, k: int)
    requires
        0 <= k <= s.table.len(),
        best_plan(s, r, k) is Some,
    ensures
        exists|i: int| k <= i && row_fits(s, r, i) && best_plan(s, r, k)->0 == #[trigger] plan_from(
            take_from_row(s, i),
        ),
    decreases s.table.len() - k,
{
    let p = best_plan(s, r, k)->0;
    if row_fits(s, r, k) && p == plan_from(take_from_row(s, k)) {
        assert(row_fits(s, r, k) && p == plan_from(take_from_row(s, k)));
    } else {
        lemma_best_plan_chosen(s, r, k + 1);
    }
}

/// Where a slot is left, the plan built from a state is one of highest score among
/// the ways to go on: after the empty rows, the unusable slots and the overdue tasks
/// are dropped, planning the greatest task of any row whose duration fits the time
/// left in the slot, and planning on from there, never gives a higher score; and the
/// plan built is one of those continuations.
pub proof fn law_plan_is_best_continuation(s: StateView)
    ensures
        ({
            let s1 = StateView { table: nonempty_rows(s.table), ..s };
            let s3 = discard_overdue(available_time(s1).0);
            let r = available_time(s1).1->0;
            available_time(s1).1 is Some ==> {
                &&& forall|i: int| row_fits(s3, r, i) ==> plan_from(s).score >= #[trigger] plan_from(
                    take_from_row(s3, i),
                ).score
                &&& (exists|i: int| row_fits(s3, r, i)) ==> exists|i: int| row_fits(s3, r, i)
                    && plan_from(s) == #[trigger] plan_from(take_from_row(s3, i))
            }
        }),
{
    let s1 = StateView { table: nonempty_rows(s.table), ..s };
    let s3 = discard_overdue(available_time(s1).0);
    let r = available_time(s1).1->0;
    if available_time(s1).1 is Some {
        assert forall|i: int| row_fits(s3, r, i) implies plan_from(s).score >= #[trigger] plan_from(
            take_from_row(s3, i),
        ).score by {
            lemma_best_plan_above(s3, r, 0, i);
        }
        if exists|i: int| row_fits(s3, r, i) {
            let i = choose|i: int| row_fits(s3, r, i);
            lemma_best_plan_above(s3, r, 0, i);
            lemma_best_plan_chosen(s3, r, 0);
        }
    }
}

/// The scheduler's plan for the given tasks, slots and moment has the highest score
/// among the ways to go on from the first slot that is used (see
/// `law_plan_is_best_continuation`).
pub proof fn law_schedule_is_best_continuation(tasks: Seq<TaskView>, slots: Seq<SlotView>, now: int)
    ensures
        ({
            let s = crate::scheduler::initial_state(tasks, slots, now);
            let s1 = StateView { table: nonempty_rows(s.table), ..s };
            let s3 = discard_overdue(available_time(s1).0);
            let r = available_time(s1).1->0;
            available_time(s1).1 is Some ==> forall|i: int| row_fits(s3, r, i)
                ==> crate::scheduler::schedule_plan(tasks, slots, now).score >= #[trigger] plan_from(
                take_from_row(s3, i),
            ).score
        }),
{
    law_plan_is_best_continuation(crate::scheduler::initial_state(tasks, slots, now));
}

/// Stored placement `e` writes placement `p` of a plan: it holds the key of an input
/// task equal to the placed task, the key of a slot that holds the placement, and the
/// moment the task was placed at.
pub open spec fn stores(
    e: (RecordId, RecordId, int),
    p: (TaskView, int),
    tasks: Seq<TaskView>,
    ids: Seq<RecordId>,
    slots: Seq<SlotView>,
    slot_ids: Seq<RecordId>,
) -> bool {
    exists|i: int, j: int|
        0 <= i < tasks.len() && 0 <= j < slots.len() && tasks[i] == p.0 && slots[j].start <= p.1 && p.1 + p.0.duration
            <= slots[j].end && e == (#[trigger] ids[i], #[trigger] slot_ids[j], p.1)
}

proof fn lemma_position_of_found(tasks: Seq<TaskView>, t: TaskView)
    ensures
        0 <= position_of(tasks, t) <= tasks.len(),
        position_of(tasks, t) < tasks.len() ==> tasks[position_of(tasks, t)] == t,
        tasks.contains(t) ==> position_of(tasks, t) < tasks.len(),
    decreases tasks.len(),
{
    if tasks.len() > 0 && tasks[0] != t {
        lemma_position_of_found(tasks.drop_first(), t);
        if tasks.contains(t) {
            let k = choose|k: int| 0 <= k < tasks.len() && tasks[k] == t;
            assert(tasks.drop_first()[k - 1] == t);
        }
    }
}

proof fn lemma_slot_position_found(slots: Seq<SlotView>, at: int, duration: int)
    ensures
        0 <= slot_position(slots, at, duration) <= slots.len(),
        slot_position(slots, at, duration) < slots.len() ==> slots[slot_position(slots, at, duration)].start <= at
            && at + duration <= slots[slot_position(slots, at, duration)].end,
        (exists|j: int| 0 <= j < slots.len() && #[trigger] slots[j].start <= at && at + duration <= slots[j].end)
            ==> slot_position(slots, at, duration) < slots.len(),
    decreases slots.len(),
{
    if slots.len() > 0 && !(slots[0].start <= at && at + duration <= slots[0].end) {
        lemma_slot_position_found(slots.drop_first(), at, duration);
        if exists|j: int| 0 <= j < slots.len() && #[trigger] slots[j].start <= at && at + duration <= slots[j].end {
            let j = choose|j: int| 0 <= j < slots.len() && #[trigger] slots[j].start <= at && at + duration <= slots[j].end;
            assert(slots.drop_first()[j - 1] == slots[j]);
        }
    }
}

/// The placement stored for the last placement of a plan, where its task and a slot
/// that holds it are found.
proof fn lemma_stored_last(
    tasks: Seq<TaskView>,
    ids: Seq<RecordId>,
    slots: Seq<SlotView>,
    slot_ids: Seq<RecordId>,
    placed: Seq<(TaskView, int)>,
)
    requires
        tasks.len() == ids.len(),
        slots.len() == slot_ids.len(),
        placed.len() > 0,
    ensures
        ({
            let (t, at) = placed.last();
            let rest = stored_placements(tasks, ids, slots, slot_ids, placed.drop_last());
            let all = stored_placements(tasks, ids, slots, slot_ids, placed);
            if position_of(tasks, t) < tasks.len() && slot_position(slots, at, t.duration) < slots.len() {
                all == rest.push(all.last()) && stores(all.last(), placed.last(), tasks, ids, slots, slot_ids)
            } else {
                all == rest
            }
        }),
{
    let (t, at) = placed.last();
    lemma_position_of_found(tasks, t);
    lemma_slot_position_found(slots, at, t.duration);
    let i = position_of(tasks, t);
    let j = slot_position(slots, at, t.duration);
    if i < tasks.len() && j < slots.len() {
        let all = stored_placements(tasks, ids, slots, slot_ids, placed);
        assert(all.last() == (ids[i], slot_ids[j], at));
    }
}

/// Every stored placement writes a placement of the plan, with the moment the task was
/// placed at, and no more placements are stored than the plan holds.
pub proof fn law_stored_placements_come_from_plan(
    tasks: Seq<TaskView>,
    ids: Seq<RecordId>,
    slots: Seq<SlotView>,
    slot_ids: Seq<RecordId>,
    placed: Seq<(TaskView, int)>,
)
    requires
        tasks.len() == ids.len(),
        slots.len() == slot_ids.len(),
    ensures
        stored_placements(tasks, ids, slots, slot_ids, placed).len() <= placed.len(),
        forall|k: int| 0 <= k < stored_placements(tasks, ids, slots, slot_ids, placed).len() ==> exists|m: int|
            0 <= m < placed.len() && stores(
                #[trigger] stored_placements(tasks, ids, slots, slot_ids, placed)[k],
                #[trigger] placed[m],
                tasks,
                ids,
                slots,
                slot_ids,
            ),
    decreases placed.len(),
{
    if placed.len() > 0 {
        let front = placed.drop_last();
        law_stored_placements_come_from_plan(tasks, ids, slots, slot_ids, front);
        lemma_stored_last(tasks, ids, slots, slot_ids, placed);
        let rest = stored_placements(tasks, ids, slots, slot_ids, front);
        let all = stored_placements(tasks, ids, slots, slot_ids, placed);
        assert forall|k: int| 0 <= k < all.len() implies exists|m: int|
            0 <= m < placed.len() && stores(#[trigger] all[k], #[trigger] placed[m], tasks, ids, slots, slot_ids) by {
            if k < rest.len() {
                assert(all[k] == rest[k]);
                let m = choose|m: int| 0 <= m < front.len() && stores(#[trigger] rest[k], #[trigger] front[m], tasks, ids, slots, slot_ids);
                assert(front[m] == placed[m]);
            } else {
                assert(stores(all[k], placed[placed.len() - 1], tasks, ids, slots, slot_ids));
            }
        }
    }
}

/// Where every placed task is among the input tasks and every placement lies within
/// one of the slots, each placement is stored, in order: the stored placement at each
/// position writes the plan's placement at that position, with its moment.
pub proof fn law_stored_placements_keep_moments(
    tasks: Seq<TaskView>,
    ids: Seq<RecordId>,
    slots: Seq<SlotView>,
    slot_ids: Seq<RecordId>,
    placed: Seq<(TaskView, int)>,
)
    requires
        tasks.len() == ids.len(),
        slots.len() == slot_ids.len(),
        forall|m: int| 0 <= m < placed.len() ==> tasks.contains(#[trigger] placed[m].0) && placed_in(placed[m], slots),
    ensures
        stored_placements(tasks, ids, slots, slot_ids, placed).len() == placed.len(),
        forall|k: int| 0 <= k < placed.len() ==> (#[trigger] stored_placements(tasks, ids, slots, slot_ids, placed)[k]).2
            == placed[k].1,
        forall|k: int| 0 <= k < placed.len() ==> stores(
            #[trigger] stored_placements(tasks, ids, slots, slot_ids, placed)[k],
            placed[k],
            tasks,
            ids,
            slots,
            slot_ids,
        ),
    decreases placed.len(),
{
    if placed.len() > 0 {
        let front = placed.drop_last();
        assert forall|m: int| 0 <= m < front.len() implies tasks.contains(#[trigger] front[m].0) && placed_in(front[m], slots) by {
            assert(front[m] == placed[m]);
        }
        law_stored_placements_keep_moments(tasks, ids, slots, slot_ids, front);
        let (t, at) = placed.last();
        let n = placed.len() - 1;
        assert(placed[n] == placed.last());
        assert(tasks.contains(placed[n].0) && placed_in(placed[n], slots));
        lemma_position_of_found(tasks, t);
        lemma_slot_position_found(slots, at, t.duration);
        lemma_stored_last(tasks, ids, slots, slot_ids, placed);
        let rest = stored_placements(tasks, ids, slots, slot_ids, front);
        let all = stored_placements(tasks, ids, slots, slot_ids, placed);
        assert forall|k: int| 0 <= k < placed.len() implies (#[trigger] all[k]).2 == placed[k].1
            && stores(all[k], placed[k], tasks, ids, slots, slot_ids) by {
            if k < n {
                assert(all[k] == rest[k]);
                assert(front[k] == placed[k]);
            } else {
                let i = position_of(tasks, t);
                let j = slot_position(slots, at, t.duration);
                assert(all[k] == (ids[i], slot_ids[j], at));
            }
        }
    }
}

/// Storing a run of the scheduler writes every placement of its plan, in order, each
/// with the moment the scheduler planned that task for.
pub proof fn law_stored_run_keeps_moments(
    tasks: Seq<TaskView>,
    ids: Seq<RecordId>,
    slots: Seq<SlotView>,
    slot_ids: Seq<RecordId>,
    now: int,
)
    requires
        crate::scheduler::inputs_ok(tasks, slots, now),
        tasks.len() == ids.len(),
        slots.len() == slot_ids.len(),
    ensures
        ({
            let placed = crate::scheduler::schedule_plan(tasks, slots, now).tasks;
            let stored = stored_placements(tasks, ids, slots, slot_ids, placed);
            &&& stored.len() == placed.len()
            &&& forall|k: int| 0 <= k < placed.len() ==> (#[trigger] stored[k]).2 == placed[k].1 && stores(
                stored[k],
                placed[k],
                tasks,
                ids,
                slots,
                slot_ids,
            )
        }),
{
    broadcast use vstd::seq_lib::group_to_multiset_ensures;
    law_plan_is_feasible(tasks, slots, now);
    law_every_task_accounted_for(tasks, slots, now);
    let p = crate::scheduler::schedule_plan(tasks, slots, now);
    assert forall|m: int| 0 <= m < p.tasks.len() implies tasks.contains(#[trigger] p.tasks[m].0) && placed_in(
        p.tasks[m],
        slots,
    ) by {
        assert(accounted(p)[m] == p.tasks[m].0);
        assert(accounted(p).contains(p.tasks[m].0));
        assert(accounted(p).to_multiset().count(p.tasks[m].0) > 0);
    }
    law_stored_placements_keep_moments(tasks, ids, slots, slot_ids, p.tasks);
}

} // verus!

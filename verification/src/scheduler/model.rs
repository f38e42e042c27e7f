use vstd::prelude::*;
use crate::model::task::{TaskView, priority_weight, task_lt};
use crate::model::slot::SlotView;
use crate::model::plan::{PlanView, plan_with};
use vstd::multiset::Multiset;

verus! {

/// A row of the duration table: a duration (seconds) and the tasks of that duration,
/// least first.
pub type RowView = (int, Seq<TaskView>);

/// The mathematical model of a planning state: the tasks not yet planned, grouped by
/// duration; the plan so far; the slots still ahead; and the current moment.
pub struct StateView {
    pub table: Seq<RowView>,
    pub plan: PlanView,
    pub slots: Seq<SlotView>,
    pub now: int,
}

pub open spec fn later(a: int, b: int) -> int {
    if a >= b { a } else { b }
}

/// Task `t` can be done within `slot`, starting no earlier than `now`, and finish by its
/// deadline.
pub open spec fn fits(t: TaskView, slot: SlotView, now: int) -> bool {
    let latest = later(now, slot.start);
    &&& t.duration <= slot.end - latest
    &&& t.deadline >= latest + t.duration
}

/// Some task of the table fits the slot.
pub open spec fn slot_usable(table: Seq<RowView>, slot: SlotView, now: int) -> bool {
    exists|r: int, k: int|
        0 <= r < table.len() && 0 <= k < table[r].1.len() && #[trigger] fits(table[r].1[k], slot, now)
}

/// How many leading slots no task of the table fits.
pub open spec fn unusable_prefix(table: Seq<RowView>, slots: Seq<SlotView>, now: int) -> nat
    decreases slots.len(),
{
    if slots.len() == 0 {
        0
    } else if slot_usable(table, slots[0], now) {
        0
    } else {
        1 + unusable_prefix(table, slots.drop_first(), now)
    }
}

/// The state with the leading unusable slots dropped.
pub open spec fn skip_slots(s: StateView) -> StateView {
    StateView { slots: s.slots.skip(unusable_prefix(s.table, s.slots, s.now) as int), ..s }
}

/// Drops the leading unusable slots; where a slot is left, moves `now` to its start
/// if that is later and gives the time left in it.
pub open spec fn available_time(s: StateView) -> (StateView, Option<int>) {
    let s1 = skip_slots(s);
    if s1.slots.len() == 0 {
        (s1, None)
    } else {
        let now = later(s1.now, s1.slots[0].start);
        (StateView { now, ..s1 }, Some(s1.slots[0].end - now))
    }
}

/// The task can no longer be done by its deadline if started at `now`.
pub open spec fn overdue(t: TaskView, now: int) -> bool {
    t.deadline < now + t.duration
}

pub open spec fn timely_in(row: Seq<TaskView>, now: int) -> Seq<TaskView> {
    row.filter(|t: TaskView| !overdue(t, now))
}

pub open spec fn overdue_in(row: Seq<TaskView>, now: int) -> Seq<TaskView> {
    row.filter(|t: TaskView| overdue(t, now))
}

/// The overdue tasks of the table, row by row.
pub open spec fn overdue_of(table: Seq<RowView>, now: int) -> Seq<TaskView>
    decreases table.len(),
{
    if table.len() == 0 {
        Seq::empty()
    } else {
        overdue_of(table.drop_last(), now) + overdue_in(table.last().1, now)
    }
}

/// The table without its overdue tasks (rows may become empty).
pub open spec fn timely_table(table: Seq<RowView>, now: int) -> Seq<RowView> {
    table.map_values(|row: RowView| (row.0, timely_in(row.1, now)))
}

/// The rows that hold at least one task.
pub open spec fn nonempty_rows(table: Seq<RowView>) -> Seq<RowView> {
    table.filter(|row: RowView| row.1.len() > 0)
}

/// Moves the overdue tasks from the table to the plan's discarded tasks.
pub open spec fn discard_overdue(s: StateView) -> StateView {
    StateView {
        table: nonempty_rows(timely_table(s.table, s.now)),
        plan: PlanView { discarded: s.plan.discarded + overdue_of(s.table, s.now), ..s.plan },
        ..s
    }
}

/// All tasks of the table, row by row.
pub open spec fn flat(table: Seq<RowView>) -> Seq<TaskView>
    decreases table.len(),
{
    if table.len() == 0 {
        Seq::empty()
    } else {
        flat(table.drop_last()) + table.last().1
    }
}

/// The number of tasks in the table.
pub open spec fn size(table: Seq<RowView>) -> nat {
    flat(table).len()
}

/// Gives up on every task left in the table.
pub open spec fn discard_remaining(s: StateView) -> StateView {
    StateView { plan: PlanView { discarded: s.plan.discarded + flat(s.table), ..s.plan }, ..s }
}

/// Plans the greatest task of row `i` at `now` and moves `now` past it.
pub open spec fn take_from_row(s: StateView, i: int) -> StateView {
    let row = s.table[i];
    StateView {
        table: s.table.update(i, (row.0, row.1.drop_last())),
        plan: plan_with(s.plan, (row.1.last(), s.now)),
        now: s.now + row.0,
        slots: s.slots,
    }
}

/// The plan that the scheduler builds from state `s`: it drops empty rows and
/// unusable slots; where no slot is left it gives up on the remaining tasks; otherwise
/// it gives up on the overdue tasks and, for each duration that fits the time left,
/// plans the greatest task of that duration and continues; of the plans so found it
/// keeps one of highest score, the last one found (in order of duration) on a tie.
pub open spec fn plan_from(s: StateView) -> PlanView
    decreases size(s.table), 1nat, 0nat,
{
    let s1 = StateView { table: nonempty_rows(s.table), ..s };
    let (s2, avail) = available_time(s1);
    match avail {
        None => discard_remaining(s2).plan,
        Some(r) => {
            let s3 = discard_overdue(s2);
            proof {
                lemma_discard_overdue_size(s2);
                lemma_nonempty_rows_flat(s.table);
            }
            match best_plan(s3, r, 0) {
                Some(p) => p,
                None => s3.plan,
            }
        },
    }
}

/// The best plan found by continuing from rows `i..` of the table whose duration is
/// at most `r` (the last of highest score).
pub open spec fn best_plan(s: StateView, r: int, i: int) -> Option<PlanView>
    decreases size(s.table), 0nat, (if 0 <= i <= s.table.len() { s.table.len() - i } else { 0 }) as nat,
{
    if i < 0 || i >= s.table.len() {
        None
    } else {
        let rest = best_plan(s, r, i + 1);
        if s.table[i].0 <= r && s.table[i].1.len() > 0 {
            proof {
                lemma_take_from_row_size(s.table, i);
            }
            let p = plan_from(take_from_row(s, i));
            match rest {
                None => Some(p),
                Some(q) => if q.score >= p.score { Some(q) } else { Some(p) },
            }
        } else {
            rest
        }
    }
}

// ---------------------------------------------------------------------------------
// Lemmas about the table

pub proof fn lemma_flat_push(table: Seq<RowView>, row: RowView)
    ensures
        flat(table.push(row)) == flat(table) + row.1,
{
    assert(table.push(row).drop_last() =~= table);
}

pub proof fn lemma_nonempty_rows_flat(table: Seq<RowView>)
    ensures
        flat(nonempty_rows(table)) == flat(table),
    decreases table.len(),
{
    if table.len() > 0 {
        lemma_nonempty_rows_flat(table.drop_last());
        reveal(Seq::filter);
        let p = |row: RowView| row.1.len() > 0;
        let rest = table.drop_last().filter(p);
        if table.last().1.len() > 0 {
            assert(table.filter(p) == rest.push(table.last()));
            lemma_flat_push(rest, table.last());
        } else {
            assert(table.filter(p) == rest);
            assert(table.last().1 =~= Seq::<TaskView>::empty());
            assert(flat(table) =~= flat(table.drop_last()));
        }
    }
}

pub proof fn lemma_filter_split_multiset(row: Seq<TaskView>, p: spec_fn(TaskView) -> bool)
    ensures
        row.to_multiset() == row.filter(p).to_multiset().add(row.filter(|t: TaskView| !p(t)).to_multiset()),
    decreases row.len(),
{
    broadcast use vstd::seq_lib::group_to_multiset_ensures;
    let q = |t: TaskView| !p(t);
    if row.len() == 0 {
        assert(row.filter(p) =~= Seq::<TaskView>::empty());
        assert(row.filter(q) =~= Seq::<TaskView>::empty());
        assert(row.to_multiset() =~= Multiset::empty());
    } else {
        lemma_filter_split_multiset(row.drop_last(), p);
        reveal(Seq::filter);
        let x = row.last();
        assert(row =~= row.drop_last().push(x));
        if p(x) {
            assert(row.filter(p) == row.drop_last().filter(p).push(x));
            assert(row.filter(q) == row.drop_last().filter(q));
        } else {
            assert(row.filter(p) == row.drop_last().filter(p));
            assert(row.filter(q) == row.drop_last().filter(q).push(x));
        }
        assert(row.to_multiset() =~= row.filter(p).to_multiset().add(row.filter(q).to_multiset()));
    }
}

pub proof fn lemma_discard_overdue_multiset(table: Seq<RowView>, now: int)
    ensures
        flat(table).to_multiset() == flat(timely_table(table, now)).to_multiset().add(
            overdue_of(table, now).to_multiset(),
        ),
    decreases table.len(),
{
    broadcast use vstd::seq_lib::group_to_multiset_ensures;
    if table.len() == 0 {
        assert(flat(timely_table(table, now)) =~= Seq::<TaskView>::empty());
        assert(flat(table).to_multiset() =~= Multiset::empty());
        assert(overdue_of(table, now).to_multiset() =~= Multiset::empty());
    } else {
        lemma_discard_overdue_multiset(table.drop_last(), now);
        let row = table.last();
        assert(timely_table(table, now).drop_last() =~= timely_table(table.drop_last(), now));
        assert(timely_table(table, now).last() == (row.0, timely_in(row.1, now)));
        lemma_filter_split_multiset(row.1, |t: TaskView| overdue(t, now));
        assert(row.1.filter(|t: TaskView| overdue(t, now)) == overdue_in(row.1, now));
        assert((|t: TaskView| !(|t: TaskView| overdue(t, now))(t)) =~= (|t: TaskView| !overdue(t, now)));
        vstd::seq_lib::lemma_multiset_commutative(flat(timely_table(table.drop_last(), now)), timely_in(row.1, now));
        vstd::seq_lib::lemma_multiset_commutative(flat(table.drop_last()), row.1);
        vstd::seq_lib::lemma_multiset_commutative(overdue_of(table.drop_last(), now), overdue_in(row.1, now));
        assert(flat(table).to_multiset() =~= flat(timely_table(table, now)).to_multiset().add(
            overdue_of(table, now).to_multiset()));
    }
}

pub proof fn lemma_discard_overdue_size(s: StateView)
    ensures
        size(discard_overdue(s).table) <= size(s.table),
        flat(s.table).to_multiset() == flat(discard_overdue(s).table).to_multiset().add(
            overdue_of(s.table, s.now).to_multiset(),
        ),
{
    broadcast use vstd::seq_lib::group_to_multiset_ensures;
    lemma_discard_overdue_multiset(s.table, s.now);
    lemma_nonempty_rows_flat(timely_table(s.table, s.now));
    assert(flat(s.table).to_multiset().len() == flat(s.table).len());
    assert(flat(discard_overdue(s).table).to_multiset().len() == flat(discard_overdue(s).table).len());
    assert(overdue_of(s.table, s.now).to_multiset().len() == overdue_of(s.table, s.now).len());
}

pub proof fn lemma_take_from_row_flat(table: Seq<RowView>, i: int)
    requires
        0 <= i < table.len(),
        table[i].1.len() > 0,
    ensures
        flat(table).to_multiset() == flat(table.update(i, (table[i].0, table[i].1.drop_last()))).to_multiset().insert(
            table[i].1.last(),
        ),
    decreases table.len(),
{
    broadcast use vstd::seq_lib::group_to_multiset_ensures;
    let row = table[i];
    let t2 = table.update(i, (row.0, row.1.drop_last()));
    if i == table.len() - 1 {
        assert(t2.drop_last() =~= table.drop_last());
        assert(row.1 =~= row.1.drop_last().push(row.1.last()));
        vstd::seq_lib::lemma_multiset_commutative(flat(table.drop_last()), row.1);
        vstd::seq_lib::lemma_multiset_commutative(flat(table.drop_last()), row.1.drop_last());
        assert(flat(table).to_multiset() =~= flat(t2).to_multiset().insert(row.1.last()));
    } else {
        lemma_take_from_row_flat(table.drop_last(), i);
        assert(t2.drop_last() =~= table.drop_last().update(i, (row.0, row.1.drop_last())));
        assert(t2.last() == table.last());
        vstd::seq_lib::lemma_multiset_commutative(flat(table.drop_last()), table.last().1);
        vstd::seq_lib::lemma_multiset_commutative(flat(t2.drop_last()), table.last().1);
        assert(flat(table).to_multiset() =~= flat(t2).to_multiset().insert(row.1.last()));
    }
}

pub proof fn lemma_take_from_row_size(table: Seq<RowView>, i: int)
    requires
        0 <= i < table.len(),
        table[i].1.len() > 0,
    ensures
        size(table.update(i, (table[i].0, table[i].1.drop_last()))) + 1 == size(table),
{
    broadcast use vstd::seq_lib::group_to_multiset_ensures;
    lemma_take_from_row_flat(table, i);
    let t2 = table.update(i, (table[i].0, table[i].1.drop_last()));
    assert(flat(table).to_multiset().len() == flat(table).len());
    assert(flat(t2).to_multiset().len() == flat(t2).len());
}


/// The largest magnitude, in seconds, of the timestamps and durations that the
/// scheduler works with. It covers every calendar timestamp (about 8.3e12 seconds
/// either side of the epoch) and every calendar duration (about 9.2e15 seconds), and
/// leaves room for sums of a few of them in 64 bits.
pub const TIME_LIMIT: i64 = 10_000_000_000_000_000;

/// The largest score a plan can reach.
pub open spec fn score_limit() -> int {
    u64::MAX as int
}

pub open spec fn within_limit(x: int) -> bool {
    -TIME_LIMIT <= x <= TIME_LIMIT
}

/// A task that the scheduler can work with.
pub open spec fn task_ok(t: TaskView) -> bool {
    within_limit(t.duration) && within_limit(t.deadline)
}

/// A slot that the scheduler can work with.
pub open spec fn slot_ok(s: SlotView) -> bool {
    within_limit(s.start) && within_limit(s.end)
}

/// Each row holds tasks of its own duration.
pub open spec fn row_ok(row: RowView) -> bool {
    &&& within_limit(row.0)
    &&& forall|k: int| 0 <= k < row.1.len() ==> #[trigger] row.1[k].duration == row.0 && task_ok(row.1[k])
}

pub open spec fn table_ok(table: Seq<RowView>) -> bool {
    forall|r: int| 0 <= r < table.len() ==> #[trigger] row_ok(table[r])
}

pub open spec fn slots_ok(slots: Seq<SlotView>) -> bool {
    forall|j: int| 0 <= j < slots.len() ==> #[trigger] slot_ok(slots[j])
}

/// The states that planning passes through: rows hold tasks of their own duration,
/// all times are within bounds, and the score cannot overflow.
pub open spec fn state_ok(s: StateView) -> bool {
    &&& table_ok(s.table)
    &&& slots_ok(s.slots)
    &&& -2 * TIME_LIMIT <= s.now <= TIME_LIMIT
    &&& 0 <= s.plan.score
    &&& s.plan.score + 9 * size(s.table) <= score_limit()
}

/// A state from which the greatest task of any row may be planned at `now`: no task
/// of the table is overdue and `now` is not before the time bound.
pub open spec fn state_ready(s: StateView) -> bool {
    &&& state_ok(s)
    &&& -TIME_LIMIT <= s.now
    &&& forall|r: int, k: int| 0 <= r < s.table.len() && 0 <= k < s.table[r].1.len()
        ==> !overdue(#[trigger] s.table[r].1[k], s.now)
}

pub proof fn lemma_filter_keeps<A>(s: Seq<A>, q: spec_fn(A) -> bool, p: spec_fn(A) -> bool)
    requires
        forall|i: int| 0 <= i < s.len() ==> p(#[trigger] s[i]),
    ensures
        forall|i: int| 0 <= i < s.filter(q).len() ==> p(#[trigger] s.filter(q)[i]),
    decreases s.len(),
{
    reveal(Seq::filter);
    if s.len() > 0 {
        lemma_filter_keeps(s.drop_last(), q, p);
        let f = s.drop_last().filter(q);
        if q(s.last()) {
            assert forall|i: int| 0 <= i < s.filter(q).len() implies p(#[trigger] s.filter(q)[i]) by {
                if i < f.len() {
                    assert(s.filter(q)[i] == f[i]);
                }
            }
        }
    }
}

pub proof fn lemma_nonempty_rows_ok(table: Seq<RowView>)
    requires
        table_ok(table),
    ensures
        table_ok(nonempty_rows(table)),
        size(nonempty_rows(table)) == size(table),
{
    lemma_filter_keeps(table, |row: RowView| row.1.len() > 0, |row: RowView| row_ok(row));
    lemma_nonempty_rows_flat(table);
}


pub proof fn lemma_unusable_prefix_bound(table: Seq<RowView>, slots: Seq<SlotView>, now: int)
    ensures
        unusable_prefix(table, slots, now) <= slots.len(),
        unusable_prefix(table, slots, now) < slots.len() ==> slot_usable(
            table,
            slots[unusable_prefix(table, slots, now) as int],
            now,
        ),
        forall|j: int| 0 <= j < unusable_prefix(table, slots, now) ==> !slot_usable(table, #[trigger] slots[j], now),
    decreases slots.len(),
{
    if slots.len() > 0 && !slot_usable(table, slots[0], now) {
        lemma_unusable_prefix_bound(table, slots.drop_first(), now);
        let k = unusable_prefix(table, slots, now);
        assert forall|j: int| 0 <= j < k implies !slot_usable(table, #[trigger] slots[j], now) by {
            if j > 0 {
                assert(slots[j] == slots.drop_first()[j - 1]);
            }
        }
    }
}

/// `k` is the number of leading unusable slots when the slots before it are unusable
/// and the slot at `k`, if any, is usable.
pub proof fn lemma_unusable_prefix_is(table: Seq<RowView>, slots: Seq<SlotView>, now: int, k: int)
    requires
        0 <= k <= slots.len(),
        forall|j: int| 0 <= j < k ==> !slot_usable(table, #[trigger] slots[j], now),
        k < slots.len() ==> slot_usable(table, slots[k], now),
    ensures
        unusable_prefix(table, slots, now) == k,
    decreases k,
{
    if k > 0 {
        assert(!slot_usable(table, slots[0], now));
        assert forall|j: int| 0 <= j < k - 1 implies !slot_usable(table, #[trigger] slots.drop_first()[j], now) by {
            assert(slots.drop_first()[j] == slots[j + 1]);
        }
        lemma_unusable_prefix_is(table, slots.drop_first(), now, k - 1);
    }
}

pub proof fn lemma_slots_suffix_ok(slots: Seq<SlotView>, k: int)
    requires
        slots_ok(slots),
        0 <= k <= slots.len(),
    ensures
        slots_ok(slots.skip(k)),
{
    assert forall|j: int| 0 <= j < slots.skip(k).len() implies #[trigger] slot_ok(slots.skip(k)[j]) by {
        assert(slots.skip(k)[j] == slots[j + k]);
    }
}

/// After the available time is found, the state is fit for planning.
pub proof fn lemma_available_time_ok(s: StateView)
    requires
        state_ok(s),
    ensures
        state_ok(available_time(s).0),
        available_time(s).0.table == s.table,
        available_time(s).0.plan == s.plan,
        available_time(s).1 is Some ==> -TIME_LIMIT <= available_time(s).0.now,
{
    lemma_unusable_prefix_bound(s.table, s.slots, s.now);
    lemma_slots_suffix_ok(s.slots, unusable_prefix(s.table, s.slots, s.now) as int);
    let s1 = skip_slots(s);
    if s1.slots.len() > 0 {
        assert(slot_ok(s1.slots[0]));
    }
}

/// After the overdue tasks are given up on, no task of the table is overdue.
pub proof fn lemma_discard_overdue_ready(s: StateView)
    requires
        state_ok(s),
        -TIME_LIMIT <= s.now,
    ensures
        state_ready(discard_overdue(s)),
        discard_overdue(s).now == s.now,
        discard_overdue(s).slots == s.slots,
{
    broadcast use vstd::seq_lib::group_filter_ensures;
    let tt = timely_table(s.table, s.now);
    assert forall|r: int| 0 <= r < tt.len() implies #[trigger] row_ok(tt[r]) && (forall|k: int|
        0 <= k < tt[r].1.len() ==> !overdue(#[trigger] tt[r].1[k], s.now)) by {
        assert(row_ok(s.table[r]));
        let row = s.table[r].1;
        let q = |t: TaskView| !overdue(t, s.now);
        lemma_filter_keeps(row, q, |t: TaskView| t.duration == s.table[r].0 && task_ok(t));
        assert forall|k: int| 0 <= k < tt[r].1.len() implies !overdue(#[trigger] tt[r].1[k], s.now) by {
            assert(q(row.filter(q)[k]));
        }
    }
    lemma_filter_keeps(tt, |row: RowView| row.1.len() > 0, |row: RowView| row_ok(row) && (forall|k: int|
        0 <= k < row.1.len() ==> !overdue(#[trigger] row.1[k], s.now)));
    lemma_discard_overdue_size(s);
    let s3 = discard_overdue(s);
    assert forall|r: int, k: int| 0 <= r < s3.table.len() && 0 <= k < s3.table[r].1.len()
        implies !overdue(#[trigger] s3.table[r].1[k], s3.now) by {
        assert((|row: RowView| row_ok(row) && (forall|k: int|
            0 <= k < row.1.len() ==> !overdue(#[trigger] row.1[k], s.now)))(s3.table[r]));
    }
}

/// Planning the greatest task of a row keeps the state fit for planning.
pub proof fn lemma_take_from_row_ok(s: StateView, i: int)
    requires
        state_ready(s),
        0 <= i < s.table.len(),
        s.table[i].1.len() > 0,
    ensures
        state_ok(take_from_row(s, i)),
        size(take_from_row(s, i).table) + 1 == size(s.table),
{
    lemma_take_from_row_size(s.table, i);
    let row = s.table[i];
    assert(row_ok(row));
    let k = row.1.len() - 1;
    assert(!overdue(s.table[i].1[k], s.now));
    assert(row.1[k].duration == row.0);
    let t2 = take_from_row(s, i).table;
    assert forall|r: int| 0 <= r < t2.len() implies #[trigger] row_ok(t2[r]) by {
        assert(row_ok(s.table[r]));
        if r == i {
            assert forall|k2: int| 0 <= k2 < t2[r].1.len() implies #[trigger] t2[r].1[k2].duration == t2[r].0
                && task_ok(t2[r].1[k2]) by {
                assert(t2[r].1[k2] == row.1[k2]);
            }
        }
    }
}

/// Some row of a table that is ready for planning can be continued from, once the
/// available time is found.
pub proof fn lemma_best_plan_exists(s: StateView, r: int, i: int)
    requires
        0 <= i < s.table.len(),
        s.table[i].0 <= r,
        s.table[i].1.len() > 0,
    ensures
        forall|j: int| 0 <= j <= i ==> (#[trigger] best_plan(s, r, j)) is Some,
    decreases i,
{
    assert(best_plan(s, r, i) is Some);
    if i > 0 {
        assert forall|j: int| 0 <= j <= i implies (#[trigger] best_plan(s, r, j)) is Some by {
            lemma_best_plan_some_below(s, r, i, j);
        }
    }
}

proof fn lemma_best_plan_some_below(s: StateView, r: int, i: int, j: int)
    requires
        0 <= j <= i < s.table.len(),
        best_plan(s, r, i) is Some,
    ensures
        best_plan(s, r, j) is Some,
    decreases i - j,
{
    if j < i {
        lemma_best_plan_some_below(s, r, i, j + 1);
    }
}

/// When a slot is left, some task fits the time that is left in it.
pub proof fn lemma_some_row_fits(s: StateView)
    requires
        state_ok(s),
        available_time(s).1 is Some,
    ensures
        ({
            let s3 = discard_overdue(available_time(s).0);
            let r = available_time(s).1->0;
            exists|i: int| 0 <= i < s3.table.len() && s3.table[i].0 <= r && s3.table[i].1.len() > 0
        }),
{
    broadcast use vstd::seq_lib::group_filter_ensures;
    lemma_unusable_prefix_bound(s.table, s.slots, s.now);
    let k = unusable_prefix(s.table, s.slots, s.now);
    let slot = s.slots[k as int];
    assert(slot == skip_slots(s).slots[0]);
    assert(slot_usable(s.table, slot, s.now));
    let (ri, ki) = choose|ri: int, ki: int|
        0 <= ri < s.table.len() && 0 <= ki < s.table[ri].1.len() && #[trigger] fits(s.table[ri].1[ki], slot, s.now);
    let t = s.table[ri].1[ki];
    let s2 = available_time(s).0;
    let r = available_time(s).1->0;
    assert(s2.now == later(s.now, slot.start));
    assert(!overdue(t, s2.now));
    assert(row_ok(s.table[ri]));
    let tt = timely_table(s.table, s2.now);
    let q = |t: TaskView| !overdue(t, s2.now);
    assert(tt[ri].1 == s.table[ri].1.filter(q));
    assert(tt[ri].1.contains(t));
    assert(tt[ri].1.len() > 0);
    let p = |row: RowView| row.1.len() > 0;
    assert(nonempty_rows(tt).contains(tt[ri]));
    let i = choose|i: int| 0 <= i < nonempty_rows(tt).len() && nonempty_rows(tt)[i] == tt[ri];
    let s3 = discard_overdue(s2);
    assert(s3.table[i] == tt[ri]);
    assert(s3.table[i].0 == t.duration);
}

/// Plans task `t` at `now`: removes the tasks of its rank from the row of its duration
/// (row `i`) and moves `now` past it.
pub open spec fn take_task(s: StateView, i: int, t: TaskView) -> StateView {
    StateView {
        table: s.table.update(i, (s.table[i].0, s.table[i].1.filter(|x: TaskView| !crate::model::task::same_rank(x, t)))),
        plan: plan_with(s.plan, (t, s.now)),
        now: s.now + t.duration,
        slots: s.slots,
    }
}
} // verus!

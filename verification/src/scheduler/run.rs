use vstd::prelude::*;
use crate::model::slot::{Slot, SlotView};
use crate::model::plan::Plan as TaskPlan;
use crate::model::task::priority_weight;
use crate::records::Plan as StoredPlan;
use crate::queries::{decimal_text, delete_task_slot_relation_query, record_ref, relate_task_to_slot_query};
use crate::model::task::{Task, TaskView};
use crate::records::{RecordId, SchedulerResult, record_texts};
use crate::scheduler::{Scheduler, inputs_ok, schedule_plan, slot_views};
use crate::scheduler::table::task_views;
use crate::model::text::strings_view;

verus! {

/// The position of the first task equal to `t` (the number of tasks where none is).
pub open spec fn position_of(tasks: Seq<TaskView>, t: TaskView) -> int
    decreases tasks.len(),
{
    if tasks.len() == 0 {
        0
    } else if tasks[0] == t {
        0
    } else {
        1 + position_of(tasks.drop_first(), t)
    }
}

/// The keys of the given-up tasks: for each, the key of the first input task equal to
/// it (`ids[i]` is the key of `tasks[i]`).
pub open spec fn discarded_keys(tasks: Seq<TaskView>, ids: Seq<RecordId>, discarded: Seq<TaskView>) -> Seq<RecordId>
    decreases discarded.len(),
{
    if discarded.len() == 0 {
        Seq::empty()
    } else {
        let rest = discarded_keys(tasks, ids, discarded.drop_last());
        let i = position_of(tasks, discarded.last());
        if i < tasks.len() {
            rest.push(ids[i])
        } else {
            rest
        }
    }
}

proof fn lemma_position_of(tasks: Seq<TaskView>, t: TaskView, i: int)
    requires
        0 <= i <= tasks.len(),
        forall|j: int| 0 <= j < i ==> tasks[j] != t,
        i == tasks.len() || tasks[i] == t,
    ensures
        position_of(tasks, t) == i,
    decreases i,
{
    if i > 0 {
        lemma_position_of(tasks.drop_first(), t, i - 1);
    }
}

fn position_in(tasks: &[Task], t: &Task) -> (r: usize)
    ensures
        r == position_of(task_views(tasks@), t@),
{
    let ghost views = task_views(tasks@);
    let mut i: usize = 0;
    while i < tasks.len() && !tasks[i].same_task(t)
        invariant
            i <= tasks.len(),
            views == task_views(tasks@),
            forall|j: int| 0 <= j < i ==> views[j] != t@,
        decreases tasks.len() - i,
    {
        i = i + 1;
    }
    proof {
        lemma_position_of(views, t@, i as int);
    }
    i
}

/// What a run of the scheduler reports on the tasks `tasks` (with keys `task_ids`),
/// the slots ahead and the moment `now`: nothing to plan where there is no task; every
/// task given up on, in order, where there is no slot; otherwise the number of tasks
/// the scheduler places and the keys of the tasks it gives up on.
pub open spec fn run_report(tasks: Seq<TaskView>, ids: Seq<RecordId>, slots: Seq<crate::model::slot::SlotView>, now: int) -> (int, Seq<RecordId>) {
    if tasks.len() == 0 {
        (0, Seq::empty())
    } else if slots.len() == 0 {
        (0, ids)
    } else {
        let plan = schedule_plan(tasks, slots, now);
        (plan.tasks.len() as int, discarded_keys(tasks, ids, plan.discarded))
    }
}

/// One run of the scheduler over stored tasks and slots (see `run_report`).
pub fn scheduler_step(tasks: &[Task], task_ids: &Vec<RecordId>, slots: &[Slot], now: i64) -> (r: SchedulerResult)
    requires
        tasks@.len() == task_ids@.len(),
        inputs_ok(task_views(tasks@), slot_views(slots@), now as int),
    ensures
        r.scheduled == run_report(task_views(tasks@), task_ids@, slot_views(slots@), now as int).0,
        strings_view(r.discarded@) == record_texts(run_report(task_views(tasks@), task_ids@, slot_views(slots@), now as int).1),
{
    if tasks.len() == 0 {
        return SchedulerResult::nothing_to_plan();
    }
    if slots.len() == 0 {
        return SchedulerResult::no_slots(task_ids);
    }
    let scheduler = Scheduler::new(tasks, slots, now);
    let plan = scheduler.schedule();
    let ghost views = task_views(tasks@);
    let ghost dis = plan@.discarded;
    let discarded = plan.discarded_tasks();
    let mut keys: Vec<RecordId> = Vec::new();
    let mut i: usize = 0;
    while i < discarded.len()
        invariant
            i <= discarded.len(),
            tasks@.len() == task_ids@.len(),
            views == task_views(tasks@),
            discarded@.map_values(|t: &Task| t@) == dis,
            keys@ == discarded_keys(views, task_ids@, dis.take(i as int)),
        decreases discarded.len() - i,
    {
        let p = position_in(tasks, discarded[i]);
        assert(dis.take(i + 1).drop_last() =~= dis.take(i as int));
        assert(dis.take(i + 1).last() == discarded@[i as int]@);
        if p < tasks.len() {
            keys.push(task_ids[p].duplicate());
        }
        i = i + 1;
    }
    assert(dis.take(i as int) =~= dis);
    SchedulerResult::from_plan(plan.tasks().len(), &keys)
}

/// The position of the first slot that holds the interval from `at` lasting `duration`
/// (the number of slots where none does).
pub open spec fn slot_position(slots: Seq<SlotView>, at: int, duration: int) -> int
    decreases slots.len(),
{
    if slots.len() == 0 {
        0
    } else if slots[0].start <= at && at + duration <= slots[0].end {
        0
    } else {
        1 + slot_position(slots.drop_first(), at, duration)
    }
}

proof fn lemma_slot_position(slots: Seq<SlotView>, at: int, duration: int, j: int)
    requires
        0 <= j <= slots.len(),
        forall|k: int| 0 <= k < j ==> !(slots[k].start <= at && at + duration <= slots[k].end),
        j == slots.len() || (slots[j].start <= at && at + duration <= slots[j].end),
    ensures
        slot_position(slots, at, duration) == j,
    decreases j,
{
    if j > 0 {
        lemma_slot_position(slots.drop_first(), at, duration, j - 1);
    }
}

fn slot_position_in(slots: &[Slot], at: i64, duration: i64) -> (r: usize)
    ensures
        r == slot_position(slot_views(slots@), at as int, duration as int),
{
    let ghost views = slot_views(slots@);
    let mut j: usize = 0;
    while j < slots.len() && !(slots[j].start_secs() <= at && (at as i128) + (duration as i128) <= slots[j].end_secs() as i128)
        invariant
            j <= slots.len(),
            views == slot_views(slots@),
            forall|k: int| 0 <= k < j ==> !(views[k].start <= at && at + duration <= views[k].end),
        decreases slots.len() - j,
    {
        j = j + 1;
    }
    proof {
        lemma_slot_position(views, at as int, duration as int, j as int);
    }
    j
}

/// A placement written against the stored records: the key of the first input task
/// equal to the placed task, the key of the first slot that holds the placement, and
/// the moment. Placements whose task or slot is not found are left out.
pub open spec fn stored_placements(
    tasks: Seq<TaskView>,
    ids: Seq<RecordId>,
    slots: Seq<SlotView>,
    slot_ids: Seq<RecordId>,
    placed: Seq<(TaskView, int)>,
) -> Seq<(RecordId, RecordId, int)>
    decreases placed.len(),
{
    if placed.len() == 0 {
        Seq::empty()
    } else {
        let rest = stored_placements(tasks, ids, slots, slot_ids, placed.drop_last());
        let (t, at) = placed.last();
        let i = position_of(tasks, t);
        let j = slot_position(slots, at, t.duration);
        if i < tasks.len() && j < slots.len() {
            rest.push((ids[i], slot_ids[j], at))
        } else {
            rest
        }
    }
}

/// The total weight of the placements that are written.
pub open spec fn stored_score(tasks: Seq<TaskView>, slots: Seq<SlotView>, placed: Seq<(TaskView, int)>) -> int
    decreases placed.len(),
{
    if placed.len() == 0 {
        0
    } else {
        let rest = stored_score(tasks, slots, placed.drop_last());
        let (t, at) = placed.last();
        if position_of(tasks, t) < tasks.len() && slot_position(slots, at, t.duration) < slots.len() {
            rest + priority_weight(t.priority)
        } else {
            rest
        }
    }
}

/// The plan to store for a plan of the scheduler: its placements as task key, slot key
/// and moment (see `stored_placements`), the keys of the tasks it gives up on (see
/// `discarded_keys`), and the weight of the placements written.
pub fn stored_plan(
    tasks: &[Task],
    task_ids: &Vec<RecordId>,
    slots: &[Slot],
    slot_ids: &Vec<RecordId>,
    plan: &TaskPlan,
) -> (r: StoredPlan)
    requires
        tasks@.len() == task_ids@.len(),
        slots@.len() == slot_ids@.len(),
        9 * plan@.tasks.len() <= u64::MAX,
    ensures
        r@.scheduled == stored_placements(task_views(tasks@), task_ids@, slot_views(slots@), slot_ids@, plan@.tasks),
        r@.discarded == discarded_keys(task_views(tasks@), task_ids@, plan@.discarded),
        r@.score == stored_score(task_views(tasks@), slot_views(slots@), plan@.tasks),
{
    let ghost tv = task_views(tasks@);
    let ghost sv = slot_views(slots@);
    let ghost placed = plan@.tasks;
    let ghost dis = plan@.discarded;
    let mut out = StoredPlan::new();
    assert(out@.scheduled =~= stored_placements(tv, task_ids@, sv, slot_ids@, placed.take(0)));
    let placements = plan.tasks();
    let mut i: usize = 0;
    while i < placements.len()
        invariant
            i <= placements.len(),
            tasks@.len() == task_ids@.len(),
            slots@.len() == slot_ids@.len(),
            tv == task_views(tasks@),
            sv == slot_views(slots@),
            placements@.len() == placed.len(),
            forall|k: int| 0 <= k < placements@.len() ==> #[trigger] placements@[k]@ == placed[k],
            9 * placed.len() <= u64::MAX,
            out@.scheduled == stored_placements(tv, task_ids@, sv, slot_ids@, placed.take(i as int)),
            out@.score == stored_score(tv, sv, placed.take(i as int)),
            out@.discarded.len() == 0,
            0 <= out@.score <= 9 * i,
        decreases placements.len() - i,
    {
        let p = &placements[i];
        let t = p.task();
        let at = p.scheduled_for();
        assert(placed.take(i + 1).drop_last() =~= placed.take(i as int));
        assert(placements@[i as int]@ == placed[i as int]);
        assert(placed.take(i + 1).last() == placed[i as int]);
        let ti = position_in(tasks, t);
        let sj = slot_position_in(slots, at, t.estimated_duration());
        if ti < tasks.len() && sj < slots.len() {
            let w = t.priority().weight();
            out.add_task(task_ids[ti].duplicate(), slot_ids[sj].duplicate(), at, w);
        }
        i = i + 1;
    }
    assert(placed.take(i as int) =~= placed);
    let discarded = plan.discarded_tasks();
    let mut k: usize = 0;
    assert(dis.take(0) =~= Seq::<TaskView>::empty());
    while k < discarded.len()
        invariant
            k <= discarded.len(),
            tasks@.len() == task_ids@.len(),
            tv == task_views(tasks@),
            discarded@.map_values(|t: &Task| t@) == dis,
            out@.scheduled == stored_placements(tv, task_ids@, sv, slot_ids@, placed),
            out@.score == stored_score(tv, sv, placed),
            out@.discarded == discarded_keys(tv, task_ids@, dis.take(k as int)),
        decreases discarded.len() - k,
    {
        let p = position_in(tasks, discarded[k]);
        assert(dis.take(k + 1).drop_last() =~= dis.take(k as int));
        assert(dis.take(k + 1).last() == discarded@[k as int]@);
        if p < tasks.len() {
            out.discard_task(task_ids[p].duplicate());
        }
        k = k + 1;
    }
    assert(dis.take(k as int) =~= dis);
    out
}

/// The statement that removes a task's placements.
pub open spec fn unlink_statement(id: RecordId) -> Seq<char> {
    "DELETE FROM contains WHERE out = "@ + record_ref(&id)
}

/// The statement that writes a placement.
pub open spec fn place_statement(p: (RecordId, RecordId, int)) -> Seq<char> {
    "RELATE "@ + record_ref(&p.1) + "->contains->"@ + record_ref(&p.0) + " SET scheduled_for = "@ + decimal_text(p.2)
}

/// The statements that store a run of the scheduler: first each of the tasks planned
/// for loses its placements, in order; then each placement of the plan is written, in
/// order.
pub open spec fn commit_plan(task_ids: Seq<RecordId>, placements: Seq<(RecordId, RecordId, int)>) -> Seq<Seq<char>> {
    task_ids.map_values(|id: RecordId| unlink_statement(id)) + placements.map_values(
        |p: (RecordId, RecordId, int)| place_statement(p),
    )
}

/// The statements that store a run of the scheduler (see `commit_plan`).
pub fn commit_statements(task_ids: &Vec<RecordId>, plan: &StoredPlan) -> (r: Vec<String>)
    ensures
        strings_view(r@) == commit_plan(task_ids@, plan@.scheduled),
{
    let ghost first = task_ids@.map_values(|id: RecordId| unlink_statement(id));
    let ghost second = plan@.scheduled.map_values(|p: (RecordId, RecordId, int)| place_statement(p));
    let mut r: Vec<String> = Vec::new();
    let mut i: usize = 0;
    while i < task_ids.len()
        invariant
            i <= task_ids.len(),
            first == task_ids@.map_values(|id: RecordId| unlink_statement(id)),
            strings_view(r@) == first.take(i as int),
        decreases task_ids.len() - i,
    {
        let st = delete_task_slot_relation_query(&task_ids[i]);
        let ghost before = r@;
        r.push(st);
        assert(strings_view(r@) =~= strings_view(before).push(st@));
        assert(first.take(i + 1) =~= first.take(i as int).push(first[i as int]));
        i = i + 1;
    }
    assert(first.take(i as int) =~= first);
    let placements = plan.tasks();
    let mut j: usize = 0;
    while j < placements.len()
        invariant
            j <= placements.len(),
            second == plan@.scheduled.map_values(|p: (RecordId, RecordId, int)| place_statement(p)),
            placements@.map_values(|e: (RecordId, RecordId, i64)| (e.0, e.1, e.2 as int)) == plan@.scheduled,
            strings_view(r@) == first + second.take(j as int),
        decreases placements.len() - j,
    {
        let e = &placements[j];
        let st = relate_task_to_slot_query(&e.1, &e.0, e.2);
        let ghost before = r@;
        r.push(st);
        assert(plan@.scheduled[j as int] == (e.0, e.1, e.2 as int));
        assert(strings_view(r@) =~= strings_view(before).push(st@));
        assert(second.take(j + 1) =~= second.take(j as int).push(second[j as int]));
        j = j + 1;
    }
    assert(second.take(j as int) =~= second);
    r
}

} // verus!

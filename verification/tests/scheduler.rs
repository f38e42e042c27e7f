use chrono::NaiveDate;
use quilum::model::plan::ScheduledTask;
use quilum::model::slot::Slot;
use quilum::model::task::{Priority, Task};
use quilum::scheduler::state::State;
use quilum::scheduler::Scheduler;
use std::collections::BTreeSet;

const MINUTE: i64 = 60;
const HOUR: i64 = 3600;

fn create_date(year: i32, month: u32, day: u32) -> i64 {
    NaiveDate::from_ymd_opt(year, month, day)
        .unwrap()
        .and_hms_opt(0, 0, 0)
        .unwrap()
        .and_utc()
        .timestamp()
}

fn create_date_time(year: i32, month: u32, day: u32, hours: u32, minutes: u32) -> i64 {
    NaiveDate::from_ymd_opt(year, month, day)
        .unwrap()
        .and_hms_opt(hours, minutes, 0)
        .unwrap()
        .and_utc()
        .timestamp()
}

fn create_task(index: i32, duration: i64, deadline: i64, priority: Priority) -> Task {
    Task::new(
        format!("Задача {index}"),
        format!("Описание для задачи {index}"),
        priority,
        duration,
        deadline,
    )
}

#[test]
fn tests_tasks_fit_into_two_slots() {
    let task_1 = create_task(1, 40 * MINUTE, create_date(2025, 6, 2), Priority::default());
    let task_2 = create_task(2, 20 * MINUTE, create_date(2025, 6, 2), Priority::default());
    let tasks = [task_1.clone(), task_2];
    let slots = [
        Slot::new(create_date_time(2025, 6, 1, 15, 00), create_date_time(2025, 6, 1, 15, 30)),
        Slot::new(create_date_time(2025, 6, 1, 16, 00), create_date_time(2025, 6, 1, 16, 30)),
        Slot::new(create_date_time(2025, 6, 1, 17, 00), create_date_time(2025, 6, 1, 17, 40)),
    ];
    let now = create_date_time(2025, 6, 1, 16, 10);

    let scheduler = Scheduler::new(&tasks, &slots, now);
    let plan = scheduler.schedule();

    assert_eq!(plan.tasks().len(), 2, "Обе задачи должны быть включены в план");
    for task in plan.tasks() {
        if *task.task() == task_1 {
            assert_eq!(task.scheduled_for(), create_date_time(2025, 6, 1, 17, 00));
        } else {
            assert_eq!(task.scheduled_for(), create_date_time(2025, 6, 1, 16, 10));
        }
    }
}

#[test]
fn tests_tasks_fit_into_one_slot() {
    let task_1 = create_task(1, 20 * MINUTE, create_date(2025, 6, 2), Priority::default());
    let task_2 = create_task(2, 20 * MINUTE, create_date(2025, 6, 2), Priority::default());
    let tasks = [task_1, task_2];
    let slots = [
        Slot::new(create_date_time(2025, 6, 1, 15, 00), create_date_time(2025, 6, 1, 15, 40)),
        Slot::new(create_date_time(2025, 6, 1, 16, 00), create_date_time(2025, 6, 1, 17, 00)),
    ];
    let now = create_date_time(2025, 6, 1, 14, 00);

    let scheduler = Scheduler::new(&tasks, &slots, now);
    let plan = scheduler.schedule();

    let actual: BTreeSet<i64> = plan.tasks().iter().map(ScheduledTask::scheduled_for).collect();
    let expected = BTreeSet::from([
        create_date_time(2025, 6, 1, 15, 00),
        create_date_time(2025, 6, 1, 15, 20),
    ]);
    assert_eq!(actual, expected);
}

#[test]
fn tests_overdue_tasks_are_not_scheduled() {
    let slots = [
        Slot::new(create_date_time(2025, 6, 1, 15, 00), create_date_time(2025, 6, 1, 15, 20)),
        Slot::new(create_date_time(2025, 6, 1, 16, 00), create_date_time(2025, 6, 1, 16, 40)),
    ];
    let task_1 = create_task(1, 20 * MINUTE, create_date(2025, 6, 2), Priority::default());
    let task_2 = create_task(2, 30 * MINUTE, create_date_time(2025, 6, 1, 15, 45), Priority::default());
    let tasks = [task_1.clone(), task_2];
    let now = create_date_time(2025, 6, 1, 14, 00);

    let scheduler = Scheduler::new(&tasks, &slots, now);
    let plan = scheduler.schedule();

    assert_eq!(
        plan.tasks().len(),
        1,
        "В плане должна оказаться только та задача, которую можно успеть сделать в срок"
    );
    let first_planned_task = plan.tasks().first().unwrap();
    assert_eq!(*first_planned_task.task(), task_1);
    assert_eq!(first_planned_task.scheduled_for(), create_date_time(2025, 6, 1, 15, 00));
}

#[test]
fn tests_priority_is_handled_correctly() {
    let slots = [Slot::new(create_date_time(2025, 6, 1, 15, 00), create_date_time(2025, 6, 1, 16, 00))];
    let task_1 = create_task(1, HOUR, create_date(2025, 6, 2), Priority::High);
    let task_2 = create_task(2, HOUR, create_date(2025, 6, 2), Priority::Low);
    let tasks = [task_1.clone(), task_2.clone()];
    let now = create_date_time(2025, 6, 1, 14, 00);

    let scheduler = Scheduler::new(&tasks, &slots, now);
    let plan = scheduler.schedule();

    assert_eq!(
        plan.tasks().len(),
        1,
        "За отведенное время можно выполнить только одну задачу - с наивысшим приоритетом"
    );
    assert_eq!(
        *plan.index(0).task(),
        task_1,
        "Задача с более высоким приоритетом должна быть добавлена в план"
    );
    assert_eq!(
        plan.index(0).scheduled_for(),
        create_date_time(2025, 6, 1, 15, 00),
        "Задача должна быть запланирована на начало слота"
    );
    assert_eq!(plan.discarded_tasks().len(), 1, "Одна из задач должна быть отклонена");
    assert_eq!(
        *plan.discarded_tasks()[0],
        task_2,
        "Задача с более низким приоритетом должна быть отклонена"
    );
}

#[test]
fn tests_the_task_that_can_be_done_on_time_should_be_prioritized() {
    let task_1 = create_task(1, HOUR, create_date_time(2025, 6, 1, 15, 30), Priority::High);
    let task_2 = create_task(2, HOUR, create_date(2025, 6, 2), Priority::Low);
    let tasks = [task_1.clone(), task_2.clone()];
    let slots = [Slot::new(create_date_time(2025, 6, 1, 15, 00), create_date_time(2025, 6, 1, 16, 00))];
    let now = create_date_time(2025, 6, 1, 14, 00);

    let scheduler = Scheduler::new(&tasks, &slots, now);
    let plan = scheduler.schedule();

    assert_eq!(plan.tasks().len(), 1, "Одну из задач можно успеть, она должна быть запланирована");
    assert_eq!(
        plan.index(0).scheduled_for(),
        create_date_time(2025, 6, 1, 15, 00),
        "Задача должна быть запланирована на начало слота"
    );
    assert_eq!(*plan.index(0).task(), task_2, "Можно успеть только вторую задачу");
    assert_eq!(plan.discarded_tasks().len(), 1, "Одну из задач нельзя успеть сделать в срок");
    assert_eq!(*plan.discarded_tasks()[0], task_1, "Невозможно успеть сделать первую задачу");
}

fn state_task(index: u32, estimated_duration: i64) -> Task {
    Task::new(
        format!("Задача {index}"),
        format!("Описание для задачи {index}"),
        Priority::default(),
        estimated_duration,
        create_date_time(2025, 6, 2, 23, 59),
    )
}

#[test]
fn does_nothing_on_empty_list() {
    let tasks: [Task; 0] = [];
    let now = create_date(2025, 6, 1);
    let mut state = State::new(&tasks, Vec::new(), now);
    state.skip_unsuitable_slots();
    assert!(state.slots().is_empty(), "Очередь слотов должна остаться пустой");
}

#[test]
fn skips_past_slots() {
    let tasks: [Task; 0] = [];
    let now = create_date(2025, 6, 1);
    let slot_date_time = create_date(2025, 5, 1);
    let past_slot = Slot::new(slot_date_time, slot_date_time + 20 * MINUTE);
    let mut state = State::new(&tasks, vec![&past_slot], now);
    state.skip_unsuitable_slots();
    assert!(
        state.slots().is_empty(),
        "Единственный просроченный слот должен был быть удален из очереди"
    );
}

#[test]
fn skips_slots_without_enough_time_for_the_task() {
    let now = create_date_time(2025, 6, 1, 16, 10);
    let slot = Slot::new(create_date_time(2025, 6, 1, 16, 00), create_date_time(2025, 6, 1, 16, 20));
    let tasks: [Task; 0] = [];
    let mut state = State::new(&tasks, vec![&slot], now);
    state.skip_unsuitable_slots();
    assert!(
        state.slots().is_empty(),
        "Единственный слот, в котором не осталось времени на задачу, должен был быть удален"
    );
}

#[test]
fn skips_short_slots() {
    let now = create_date_time(2025, 6, 1, 16, 00);
    let slot = Slot::new(create_date_time(2025, 6, 1, 16, 10), create_date_time(2025, 6, 1, 16, 20));
    let tasks: [Task; 0] = [];
    let mut state = State::new(&tasks, vec![&slot, &slot], now);
    state.skip_unsuitable_slots();
    assert!(state.slots().is_empty(), "Два слишком коротких слота должны были быть удалены");
}

#[test]
fn stops_at_suitable_slot() {
    let now = create_date_time(2025, 6, 1, 16, 00);
    let slot = Slot::new(create_date_time(2025, 6, 1, 16, 10), create_date_time(2025, 6, 1, 16, 30));
    let tasks = [state_task(1, 20 * MINUTE)];
    let mut state = State::new(&tasks, vec![&slot], now);
    state.skip_unsuitable_slots();
    assert_eq!(state.slots().len(), 1, "Подходящий слот должен был быть сохранен в очереди");
}

#[test]
fn no_slots() {
    let tasks = [state_task(1, 20 * MINUTE)];
    let now = create_date(2025, 6, 1);
    let mut state = State::new(&tasks, Vec::new(), now);
    assert!(state.get_available_time().is_none());
    assert_eq!(now, state.now(), "now должно остаться прежним");
}

#[test]
fn short_slot() {
    let slot_start = create_date_time(2025, 6, 1, 16, 30);
    let slot = Slot::new(slot_start, slot_start + 10 * MINUTE);
    let tasks = [state_task(1, 20 * MINUTE)];
    let now = create_date_time(2025, 6, 1, 16, 00);
    let mut state = State::new(&tasks, vec![&slot], now);
    let available_time = state.get_available_time();
    assert!(available_time.is_none());
    assert_eq!(now, state.now());
}

#[test]
fn suitable_slot_now() {
    let now = create_date_time(2025, 6, 1, 16, 10);
    let slot_start = create_date_time(2025, 6, 1, 16, 00);
    let slot = Slot::new(slot_start, slot_start + 30 * MINUTE);
    let tasks = [state_task(1, 20 * MINUTE)];
    let mut state = State::new(&tasks, vec![&slot], now);

    let actual_available_time = state
        .get_available_time()
        .expect("В слоте достаточно времени для выполнения задачи");
    let task = state
        .table()
        .iter()
        .find_map(|row| row.1.first().copied())
        .expect("В таблице должна остаться задача");

    assert_eq!(state.slots().len(), 1);
    let first_slot = state.slots().first().copied().expect("Слот должен остаться");
    let expected_available_time = first_slot.ends_at() - now;
    assert_eq!(actual_available_time, expected_available_time);
    assert!(actual_available_time >= task.estimated_duration());
    assert_eq!(now, state.now());
}

#[test]
fn upcoming_suitable_slot() {
    let now = create_date_time(2025, 6, 1, 16, 00);
    let slot_start = create_date_time(2025, 6, 1, 16, 10);
    let slot = Slot::new(slot_start, slot_start + 30 * MINUTE);
    let tasks = [state_task(1, 20 * MINUTE)];
    let mut state = State::new(&tasks, vec![&slot], now);

    let actual_available_time = state
        .get_available_time()
        .expect("В слоте достаточно времени для выполнения задачи");
    let task = state
        .table()
        .iter()
        .find_map(|row| row.1.first().copied())
        .expect("В таблице должна остаться задача");

    assert_eq!(state.slots().len(), 1);
    let first_slot = state.slots().first().copied().expect("Слот должен остаться");
    let expected_available_time = first_slot.ends_at() - first_slot.starts_at();
    assert_eq!(actual_available_time, expected_available_time);
    assert!(actual_available_time >= task.estimated_duration());
    assert_eq!(first_slot.starts_at(), state.now());
}

#[test]
fn plan_laws_on_values() {
    let day = create_date(2025, 6, 1);
    let tasks = [
        create_task(1, 50 * MINUTE, day + 20 * HOUR, Priority::High),
        create_task(2, 30 * MINUTE, day + 12 * HOUR, Priority::Low),
        create_task(3, 90 * MINUTE, day + 23 * HOUR, Priority::Medium),
        create_task(4, 20 * MINUTE, day + 9 * HOUR, Priority::High),
        create_task(5, 45 * MINUTE, day + 30 * HOUR, Priority::Medium),
        create_task(6, 10 * MINUTE, day + 8 * HOUR, Priority::Low),
    ];
    let slots = [
        Slot::new(day + 8 * HOUR, day + 9 * HOUR),
        Slot::new(day + 11 * HOUR, day + 12 * HOUR + 30 * MINUTE),
        Slot::new(day + 18 * HOUR, day + 20 * HOUR),
    ];
    let now = day + 8 * HOUR + 15 * MINUTE;
    let plan = Scheduler::new(&tasks, &slots, now).schedule();

    let mut previous_end = now;
    let mut weights = 0;
    for placed in plan.tasks() {
        let start = placed.scheduled_for();
        let end = start + placed.task().estimated_duration();
        assert!(start >= previous_end, "tasks follow one another");
        assert!(end <= placed.task().deadline(), "tasks end by their deadline");
        assert!(slots.iter().any(|s| s.starts_at() <= start && end <= s.ends_at()), "tasks lie within a slot");
        previous_end = end;
        weights += u64::from(*placed.task().priority());
    }
    assert_eq!(plan.score(), weights);

    for task in &tasks {
        let planned = plan.tasks().iter().filter(|p| *p.task() == *task).count();
        let discarded = plan.discarded_tasks().iter().filter(|t| **t == task).count();
        assert_eq!(planned + discarded, 1, "each task is planned or given up on, once");
    }
    assert_eq!(plan.tasks().len() + plan.discarded_tasks().len(), tasks.len());
}

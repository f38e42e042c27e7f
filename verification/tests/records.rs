use quilum::model::task::Priority;
use quilum::applock::linux::{get_application_dirs, search_candidates};
use quilum::applock::macos;
use quilum::model::time::MAX_TIMESTAMP;
use quilum::records::{read_field, Event, FieldAction, FieldValue, FocusSession, RecordId, SchedulerResult, TaskList};

fn s(x: &str) -> String {
    x.to_string()
}

#[test]
fn linux_application_dirs_defaults() {
    assert_eq!(
        get_application_dirs(None, Some(s("/home/u")), None),
        vec![
            s("/home/u/.local/share/applications"),
            s("/usr/local/share/applications"),
            s("/usr/share/applications"),
            s("/run/current-system/sw/share/applications"),
        ]
    );
}

#[test]
fn linux_application_dirs_from_environment() {
    assert_eq!(
        get_application_dirs(Some(s("/data")), Some(s("/home/u")), Some(s("/a::/b"))),
        vec![
            s("/data/applications"),
            s("/a/applications"),
            s("/b/applications"),
            s("/run/current-system/sw/share/applications"),
        ]
    );
    assert_eq!(
        get_application_dirs(None, None, Some(s(""))),
        vec![s("/applications"), s("/run/current-system/sw/share/applications")]
    );
}

#[test]
fn path_search_candidates() {
    assert_eq!(search_candidates("/usr/bin:/bin", "ls"), vec![s("/usr/bin/ls"), s("/bin/ls")]);
    assert_eq!(search_candidates("", "ls"), vec![s("ls")]);
    assert_eq!(search_candidates("/opt/", "x"), vec![s("/opt/x")]);
}

#[test]
fn macos_application_dirs() {
    assert_eq!(
        macos::get_application_dirs(Some(s("/Users/u"))),
        vec![s("/Applications"), s("/System/Applications"), s("/Users/u/Applications")]
    );
    assert_eq!(macos::get_application_dirs(None), vec![s("/Applications"), s("/System/Applications")]);
}

#[test]
fn record_ids() {
    let id = RecordId::parse("task:abc").unwrap();
    assert_eq!(id.table, "task");
    assert_eq!(id.key, "abc");
    assert_eq!(id.text(), "task:abc");
    assert!(RecordId::parse("a:b:c").is_none());
    assert!(RecordId::parse("abc").is_none());
    assert_eq!(RecordId::parse(":"), Some(RecordId::new("", "")));
}

#[test]
fn events() {
    let mut e = Event { id: RecordId::new("event", "1"), name: s("Talk"), description: s("d"), starts_at: 100, ends_at: MAX_TIMESTAMP + 1 };
    assert_eq!(e.name(), "Talk");
    assert_eq!(e.description(), "d");
    assert_eq!(e.starts_at(), 100);
    assert_eq!(e.ends_at(), 0);
    e.set_name(s("Lecture"));
    e.set_description(s("long"));
    e.set_starts_at(200);
    e.set_ends_at(300);
    assert_eq!(e.name(), "Lecture");
    assert_eq!(e.description(), "long");
    assert_eq!((e.starts_at(), e.ends_at()), (200, 300));
    assert_eq!(e.id(), &RecordId::new("event", "1"));
}

#[test]
fn focus_sessions_and_lists() {
    let f = FocusSession::new(10, 20, Some(RecordId::new("task", "t")));
    assert_eq!(f.id.text(), "focus_session:temp");
    assert_eq!((f.start_time(), f.end_time()), (10, 20));
    assert_eq!(f.task_id, Some(RecordId::new("task", "t")));
    let l = TaskList { id: RecordId::new("tasklist", "x"), title: s("Home") };
    assert_eq!(l.title(), "Home");
    assert_eq!(l.id().text(), "tasklist:x");
}

#[test]
fn scheduler_results() {
    let none = SchedulerResult::nothing_to_plan();
    assert_eq!(none.scheduled, 0);
    assert!(none.discarded.is_empty());
    let ids = vec![RecordId::new("task", "a"), RecordId::new("task", "b")];
    let unplanned = SchedulerResult::no_slots(&ids);
    assert_eq!(unplanned.scheduled, 0);
    assert_eq!(unplanned.discarded, vec![s("task:a"), s("task:b")]);
    let planned = SchedulerResult::from_plan(3, &vec![RecordId::new("task", "c")]);
    assert_eq!(planned.scheduled, 3);
    assert_eq!(planned.discarded, vec![s("task:c")]);
}

#[test]
fn record_fields() {
    assert_eq!(
        read_field("id", &FieldValue::Text(s("task:abc"))),
        FieldAction::RecordKey { table: s("task"), key: s("abc") }
    );
    assert_eq!(read_field("id", &FieldValue::Text(s("task"))), FieldAction::Drop);
    assert_eq!(read_field("id", &FieldValue::Text(s("a:b:c"))), FieldAction::Drop);
    assert_eq!(read_field("id", &FieldValue::Other), FieldAction::Drop);
    assert_eq!(read_field("priority", &FieldValue::Keys(vec![s("High"), s("Low")])), FieldAction::Text(s("High")));
    assert_eq!(read_field("priority", &FieldValue::Keys(vec![])), FieldAction::Drop);
    assert_eq!(read_field("priority", &FieldValue::Text(s("High"))), FieldAction::Drop);
    assert_eq!(read_field("name", &FieldValue::Text(s("x"))), FieldAction::Keep);
    assert_eq!(read_field("deadline", &FieldValue::Other), FieldAction::Keep);
}

#[test]
fn priorities_by_name() {
    assert_eq!(Priority::from_name("Low"), Ok(Priority::Low));
    assert_eq!(Priority::from_name("Medium"), Ok(Priority::Medium));
    assert_eq!(Priority::from_name("High"), Ok(Priority::High));
    assert_eq!(Priority::from_name("low"), Err(s("Invalid priority")));
    assert_eq!(Priority::from_name(""), Err(s("Invalid priority")));
    assert_eq!(u64::from(Priority::High), 9);
    assert_eq!(Priority::default(), Priority::Medium);
}

#[test]
fn task_schedule() {
    let t = quilum::model::task::Task::new(s("A"), s("B"), Priority::High, 60, 1000);
    let placed = t.schedule(500);
    assert_eq!(placed.scheduled_for(), 500);
    assert_eq!(placed.task().name(), "A");
}

#[test]
fn stored_plans() {
    let task = |k: &str| RecordId::new("task", k);
    let slot = RecordId::new("slot", "s");
    let mut plan = quilum::records::Plan::new();
    assert_eq!(plan.score(), 0);
    plan.add_task(task("a"), slot.clone(), 100, 4);
    let mut plan = plan.with_task(task("b"), slot.clone(), 200, 9);
    plan.discard_task(task("c"));
    plan.discard_tasks(vec![task("d"), task("e")]);
    assert_eq!(plan.score(), 13);
    assert_eq!(plan.tasks().len(), 2);
    assert_eq!(plan.tasks()[1], (task("b"), slot, 200));
    assert_eq!(plan.discarded_tasks(), &vec![task("c"), task("d"), task("e")]);
}

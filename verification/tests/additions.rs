use quilum::applock::app_info::BlockedApp;
use quilum::applock::focus::read_blocked_apps;
use quilum::applock::polling::stopped_count;
use quilum::queries::{delete_slot_relations_query, task_lists_query, upsert_action, UpsertAction};
use quilum::scheduler::run::{commit_statements, stored_plan};
use quilum::applock::app_info::AppInfo;
use quilum::applock::focus::{focus_end_notice, focus_notice_title, focus_start_notice};
use quilum::applock::identifier::AppIdentifier;
use quilum::applock::linux::{desktop_app_from, exec_target_from, DesktopLine, ExecTarget};
use quilum::applock::macos::{app_from_plist, PlistText};
use quilum::applock::polling::blocked_by_names;
use quilum::applock::windows::app_from_shortcut;
use quilum::model::slot::Slot;
use quilum::model::task::{Priority, Task};
use quilum::model::time::{MAX_TIMESTAMP, MIN_TIMESTAMP};
use quilum::queries::{
    delete_task_slot_relation_query, delete_tasks_in_list_query, future_slots_query,
    relate_task_to_list_query, relate_task_to_slot_query, slot_for_task_query, tasks_in_list_query,
    tasks_in_slot_query, uncompleted_tasks_query,
};
use quilum::records::RecordId;
use quilum::rows::{read_list_rows, read_scheduled_rows, read_slot_rows, ScheduledRow, SlotRow, StoredTask, TaskRow};
use quilum::scheduler::run::scheduler_step;
use quilum::scheduler::Scheduler;

fn s(x: &str) -> String {
    x.to_string()
}

fn task(name: &str, duration: i64, deadline: i64, priority: Priority) -> Task {
    Task::new(s(name), s("d"), priority, duration, deadline)
}

#[test]
fn weight_through_a_reference() {
    for p in [Priority::Low, Priority::Medium, Priority::High] {
        assert_eq!(u64::from(&p), u64::from(p));
    }
    assert_eq!(u64::from(&Priority::Medium), 4);
}

#[test]
fn clock_readings_round_up() {
    let tasks = [task("a", 10, 100, Priority::High)];
    let slots = [Slot::new(0, 20)];
    // At 10.5 s, 9.5 s are left in the slot: a task of 10 s no longer fits.
    let late = Scheduler::new_at(&tasks, &slots, 10, 500_000_000).schedule();
    assert_eq!(late.tasks().len(), 0);
    let exact = Scheduler::new_at(&tasks, &slots, 10, 0).schedule();
    assert_eq!(exact.tasks().len(), 1);
    assert_eq!(exact.tasks()[0].scheduled_for(), 10);
}

#[test]
fn scheduling_near_the_calendar_limits() {
    let tasks = [task("far", 3600, MAX_TIMESTAMP, Priority::Low)];
    let slots = [Slot::new(MAX_TIMESTAMP - 7200, MAX_TIMESTAMP)];
    let plan = Scheduler::new(&tasks, &slots, MAX_TIMESTAMP - 10_000).schedule();
    assert_eq!(plan.tasks().len(), 1);
    assert_eq!(plan.tasks()[0].scheduled_for(), MAX_TIMESTAMP - 7200);
    let early = [task("early", 60, MIN_TIMESTAMP + 600, Priority::Low)];
    let early_slots = [Slot::new(MIN_TIMESTAMP, MIN_TIMESTAMP + 300)];
    let plan = Scheduler::new(&early, &early_slots, MIN_TIMESTAMP).schedule();
    assert_eq!(plan.tasks()[0].scheduled_for(), MIN_TIMESTAMP);
}

#[test]
fn scheduler_steps() {
    let ids = vec![RecordId::new("task", "a"), RecordId::new("task", "b")];
    let tasks = [task("a", 600, 10_000, Priority::High), task("b", 6_000, 10_000, Priority::Low)];
    let none = scheduler_step(&[], &vec![], &[Slot::new(0, 100)], 0);
    assert_eq!(none.scheduled, 0);
    assert!(none.discarded.is_empty());
    let no_slots = scheduler_step(&tasks, &ids, &[], 0);
    assert_eq!(no_slots.scheduled, 0);
    assert_eq!(no_slots.discarded, vec![s("task:a"), s("task:b")]);
    let run = scheduler_step(&tasks, &ids, &[Slot::new(0, 1_000)], 0);
    assert_eq!(run.scheduled, 1);
    assert_eq!(run.discarded, vec![s("task:b")]);
}

#[test]
fn statements() {
    let t = RecordId::new("task", "t1");
    let sl = RecordId::new("slot", "s1");
    let l = RecordId::new("task_list", "l1");
    assert_eq!(uncompleted_tasks_query(42), "SELECT * FROM task WHERE completed = false AND deadline > 42");
    assert_eq!(future_slots_query(42), "SELECT * FROM slot WHERE ends_at > 42 ORDER BY starts_at ASC");
    assert_eq!(delete_task_slot_relation_query(&t), "DELETE FROM contains WHERE out = task:t1");
    assert_eq!(relate_task_to_slot_query(&sl, &t, 7), "RELATE slot:s1->contains->task:t1 SET scheduled_for = 7");
    assert_eq!(
        slot_for_task_query(&t),
        "SELECT * FROM ONLY slot WHERE id IN (SELECT in FROM contains WHERE out = task:t1) LIMIT 1"
    );
    assert_eq!(tasks_in_slot_query(&sl), "SELECT * FROM task WHERE id IN (SELECT out FROM contains WHERE in = slot:s1)");
    assert_eq!(relate_task_to_list_query(&t, &l), "RELATE task:t1->belongs_to->task_list:l1");
    assert_eq!(tasks_in_list_query(&l), "SELECT in.* FROM belongs_to WHERE out = task_list:l1");
    assert_eq!(
        delete_tasks_in_list_query(&l),
        "DELETE FROM task WHERE id IN (SELECT in FROM belongs_to WHERE out = task_list:l1)"
    );
}

#[test]
fn notices() {
    assert_eq!(focus_notice_title(), "Период концентрации");
    assert_eq!(
        focus_start_notice("Отчёт", 5_430),
        "Начался период концентрации: \"Отчёт\" (90 мин.). Отвлекающие приложения заблокированы!"
    );
    assert_eq!(
        focus_start_notice("x", -61),
        "Начался период концентрации: \"x\" (-1 мин.). Отвлекающие приложения заблокированы!"
    );
    assert_eq!(focus_end_notice(), "Период концентрации окончен. Приложения разблокированы.");
}

#[test]
fn outside_results_one_call_down() {
    let toks = vec![s("/usr/bin/env"), s("A=b"), s("x")];
    assert!(matches!(exec_target_from(&toks, Some(s("env"))), Some(ExecTarget::Resolve(p)) if p == "b"));
    assert!(matches!(exec_target_from(&toks, None), Some(ExecTarget::Direct(p)) if p == "/usr/bin/env"));
    assert!(exec_target_from(&vec![], Some(s("env"))).is_none());

    let line = |k: &str, v: &str| DesktopLine { key: Some(s(k)), locale: None, value: Some(s(v)) };
    let app = desktop_app_from(Some(vec![line("Type", "Application"), line("Name", "N"), line("Exec", "/bin/n")])).unwrap();
    assert_eq!(app.name, "N");
    assert!(desktop_app_from(None).is_none());

    let a = app_from_plist(Some(PlistText::Text(s("com.x"))), Some(PlistText::Missing), Some(PlistText::Text(s("X"))), "X.app").unwrap();
    assert_eq!(a.display_name, "X");
    assert!(app_from_plist(Some(PlistText::Other), None, None, "X.app").is_none());

    let w: AppInfo = app_from_shortcut(Some(s("C:/a.exe")), Some(s("exe")), None).unwrap();
    assert!(matches!(w.identifier, AppIdentifier::Path(ref p) if p == "C:/a.exe"));
    assert_eq!(w.display_name, "Unknown");
    assert!(app_from_shortcut(Some(s("C:/a.txt")), Some(s("txt")), Some(s("A"))).is_none());

    assert!(blocked_by_names(&Some(s("game")), &vec![None, Some(s("game"))]));
    assert!(!blocked_by_names(&None, &vec![None]));
    assert!(!blocked_by_names(&Some(s("game")), &vec![Some(s("other"))]));
}

#[test]
fn slot_rows() {
    let row = |id: &str, slot: Option<Slot>, tasks: Option<Vec<TaskRow>>| SlotRow { id: s(id), slot, tasks };
    let t = StoredTask { id: RecordId::new("task", "a"), task: task("a", 60, 1_000, Priority::Low) };
    let rows = vec![
        row("slot:1", Some(Slot::new(0, 100)), Some(vec![
            TaskRow { scheduled_for: Some(10), task: Some(t.clone()) },
            TaskRow { scheduled_for: None, task: Some(t.clone()) },
            TaskRow { scheduled_for: Some(20), task: None },
        ])),
        row("bad", None, None),
        row("slot:2", Some(Slot::new(200, 300)), None),
    ];
    let read = read_slot_rows(&rows).unwrap();
    assert_eq!(read.len(), 2);
    assert_eq!(read[0].slot_id, RecordId::new("slot", "1"));
    assert_eq!(read[0].tasks.len(), 1);
    assert_eq!(read[0].tasks[0].0.id, RecordId::new("task", "a"));
    assert_eq!(read[0].tasks[0].1, 10);
    assert!(read[1].tasks.is_empty());
    let failing = vec![row("slot:1", Some(Slot::new(0, 1)), None), row("slot:2", None, None)];
    assert_eq!(read_slot_rows(&failing).unwrap_err(), 1);
}

#[test]
fn scheduled_and_list_rows() {
    let t = StoredTask { id: RecordId::new("task", "a"), task: task("a", 60, 1_000, Priority::Low) };
    let rows = vec![
        ScheduledRow { scheduled_for: Some(5), out: Some(Some(t.clone())) },
        ScheduledRow { scheduled_for: None, out: Some(None) },
        ScheduledRow { scheduled_for: Some(7), out: None },
    ];
    let read = read_scheduled_rows(&rows).unwrap();
    assert_eq!(read.len(), 1);
    assert_eq!(read[0].1, 5);
    let bad = vec![rows[0].clone(), ScheduledRow { scheduled_for: Some(9), out: Some(None) }];
    assert_eq!(read_scheduled_rows(&bad).unwrap_err(), 1);

    let listed = vec![Some(Some(t.clone())), None, Some(Some(t.clone()))];
    assert_eq!(read_list_rows(&listed).unwrap().len(), 2);
    assert_eq!(read_list_rows(&vec![None, Some(None)]).unwrap_err(), 1);
}

#[test]
fn stopped_counts() {
    assert_eq!(stopped_count(&vec![]), 0);
    assert_eq!(stopped_count(&vec![true, false, true]), 2);
    assert_eq!(stopped_count(&vec![false]), 0);
}

#[test]
fn stored_plans_and_commit() {
    let ids = vec![RecordId::new("task", "a"), RecordId::new("task", "b")];
    let slot_ids = vec![RecordId::new("slot", "s1"), RecordId::new("slot", "s2")];
    let tasks = [task("a", 600, 10_000, Priority::High), task("b", 6_000, 10_000, Priority::Low)];
    let slots = [Slot::new(0, 100), Slot::new(1_000, 2_000)];
    let plan = Scheduler::new(&tasks, &slots, 0).schedule();
    let stored = stored_plan(&tasks, &ids, &slots, &slot_ids, &plan);
    assert_eq!(stored.tasks(), &vec![(RecordId::new("task", "a"), RecordId::new("slot", "s2"), 1_000)]);
    assert_eq!(stored.discarded_tasks(), &vec![RecordId::new("task", "b")]);
    assert_eq!(stored.score(), 9);
    assert_eq!(
        commit_statements(&ids, &stored),
        vec![
            s("DELETE FROM contains WHERE out = task:a"),
            s("DELETE FROM contains WHERE out = task:b"),
            s("RELATE slot:s2->contains->task:a SET scheduled_for = 1000"),
        ]
    );
}

#[test]
fn task_order_within_a_row() {
    let a = task("a", 60, 100, Priority::Low);
    let b = task("b", 60, 100, Priority::High);
    assert!(a.ranks_below(&b));
    assert!(!b.ranks_below(&a));
    let a2 = task("a", 60, 100, Priority::Low);
    assert!(!a.ranks_below(&a2) && !a2.ranks_below(&a) && a == a2);
    let c = task("a", 60, 100, Priority::Low);
    let mut d = c.clone();
    d.set_description(s("e"));
    assert!(c.ranks_below(&d) != d.ranks_below(&c));
}

#[test]
fn one_separator_for_the_block_list() {
    let stored = vec![
        BlockedApp { id: RecordId::new("blocked_app", "1"), identifier: s("C:\\x.exe"), display_name: s("X") },
        BlockedApp { id: RecordId::new("blocked_app", "2"), identifier: s("com.y"), display_name: s("Y") },
    ];
    for sep in ['/', '\\'] {
        let apps = read_blocked_apps(stored.clone(), sep);
        for (a, b) in apps.iter().zip(stored.iter()) {
            assert_eq!(a.identifier, b.identifier_on(sep));
            assert_eq!(a.display_name, b.display_name);
        }
    }
    assert_eq!(stored[0].identifier_on('\\'), AppIdentifier::Path(s("C:\\x.exe")));
    assert_eq!(stored[0].identifier_on('/'), AppIdentifier::BundleId(s("C:\\x.exe")));
}

#[test]
fn more_statements() {
    assert_eq!(delete_slot_relations_query(&RecordId::new("slot", "s")), "DELETE FROM contains WHERE in = slot:s");
    assert_eq!(task_lists_query(), "SELECT * FROM task_list");
    let apps = vec![BlockedApp { id: RecordId::new("blocked_app", "k"), identifier: s("/a"), display_name: s("A") }];
    assert_eq!(upsert_action(&apps, &AppIdentifier::Path(s("/a"))), UpsertAction::Update { key: s("k") });
    assert_eq!(upsert_action(&apps, &AppIdentifier::Path(s("/b"))), UpsertAction::Create);
}

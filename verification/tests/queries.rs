use quilum::applock::app_info::BlockedApp;
use quilum::applock::identifier::AppIdentifier;
use quilum::queries::{
    active_session_query, decimal, escape_sql, events_in_range_query, find_blocked_app,
    remove_blocked_app_query, scheduled_tasks_query, slots_with_tasks_query, start_session_query,
    today_range, week_range,
};
use quilum::records::RecordId;

#[test]
fn decimal_numbers() {
    assert_eq!(decimal(0), "0");
    assert_eq!(decimal(7), "7");
    assert_eq!(decimal(1_700_000_000), "1700000000");
    assert_eq!(decimal(-42), "-42");
    assert_eq!(decimal(i64::MAX), i64::MAX.to_string());
    assert_eq!(decimal(i64::MIN), i64::MIN.to_string());
}

#[test]
fn sql_escaping() {
    assert_eq!(escape_sql("plain"), "plain");
    assert_eq!(escape_sql("it's"), "it''s");
    assert_eq!(escape_sql("''"), "''''");
    assert_eq!(
        remove_blocked_app_query(&AppIdentifier::Path("/opt/o'neil/app".to_string())),
        "DELETE FROM blocked_app WHERE identifier = '/opt/o''neil/app'"
    );
}

#[test]
fn session_queries() {
    assert_eq!(
        start_session_query(100, 200, None),
        "CREATE focus_session CONTENT { start_time: 100, end_time: 200, task_id: NONE }"
    );
    assert_eq!(
        start_session_query(-5, 7, Some(&RecordId::new("task", "abc"))),
        "CREATE focus_session CONTENT { start_time: -5, end_time: 7, task_id: task:abc }"
    );
    assert_eq!(
        active_session_query(1234),
        "SELECT * FROM focus_session WHERE start_time <= 1234 AND end_time > 1234 LIMIT 1"
    );
}

#[test]
fn range_queries() {
    assert_eq!(events_in_range_query(0, 86400), "SELECT * FROM event WHERE starts_at < 86400 AND ends_at > 0");
    assert_eq!(
        scheduled_tasks_query(10, 20),
        "SELECT out.*, scheduled_for FROM contains WHERE in.starts_at < 20 AND in.ends_at > 10"
    );
    assert_eq!(
        slots_with_tasks_query(10, 20),
        "SELECT *, ->(SELECT out.*, scheduled_for FROM contains) AS tasks FROM slot WHERE starts_at < 20 AND ends_at > 10"
    );
}

#[test]
fn day_ranges() {
    let day = chrono::NaiveDate::from_ymd_opt(2024, 3, 4).unwrap();
    let n = (day - chrono::NaiveDate::from_ymd_opt(1970, 1, 1).unwrap()).num_days();
    let start = day.and_hms_opt(0, 0, 0).unwrap().and_utc().timestamp();
    let next = (day + chrono::TimeDelta::days(1)).and_hms_opt(0, 0, 0).unwrap().and_utc().timestamp();
    let week_end = (day + chrono::TimeDelta::days(7)).and_hms_opt(0, 0, 0).unwrap().and_utc().timestamp();
    assert_eq!(today_range(n), (start, next));
    assert_eq!(week_range(n), (start, week_end));
    assert_eq!(today_range(-1), (-86400, 0));
}

#[test]
fn upsert_lookup() {
    let app = |key: &str, ident: &str| BlockedApp {
        id: RecordId::new("blocked_app", key),
        identifier: ident.to_string(),
        display_name: ident.to_string(),
    };
    let apps = vec![app("1", "/a"), app("2", "com.b"), app("3", "/a")];
    assert_eq!(find_blocked_app(&apps, "/a"), Some(0));
    assert_eq!(find_blocked_app(&apps, "com.b"), Some(1));
    assert_eq!(find_blocked_app(&apps, "/c"), None);
    assert_eq!(find_blocked_app(&vec![], "/a"), None);
}

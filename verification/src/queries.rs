use vstd::prelude::*;
use crate::applock::app_info::BlockedApp;
use crate::applock::identifier::{AppIdentifier, identifier_text};
use crate::model::text::{chars_of, concat, same_text, string_of};
use crate::model::time::{MAX_TIMESTAMP, MIN_TIMESTAMP};
use crate::records::RecordId;

verus! {

/// The character of a decimal digit.
pub open spec fn digit_char(d: int) -> char {
    if d == 0 {
        '0'
    } else if d == 1 {
        '1'
    } else if d == 2 {
        '2'
    } else if d == 3 {
        '3'
    } else if d == 4 {
        '4'
    } else if d == 5 {
        '5'
    } else if d == 6 {
        '6'
    } else if d == 7 {
        '7'
    } else if d == 8 {
        '8'
    } else {
        '9'
    }
}

/// The decimal digits of `n`, most significant first, without leading zeros.
pub open spec fn digits_of(n: nat) -> Seq<char>
    decreases n,
{
    if n < 10 {
        seq![digit_char(n as int)]
    } else {
        digits_of(n / 10).push(digit_char((n % 10) as int))
    }
}

/// `n` written in decimal, with a leading `-` where it is negative.
pub open spec fn decimal_text(n: int) -> Seq<char> {
    if n < 0 {
        seq!['-'] + digits_of((-n) as nat)
    } else {
        digits_of(n as nat)
    }
}

fn digit(d: u64) -> (c: char)
    requires
        d < 10,
    ensures
        c == digit_char(d as int),
{
    if d == 0 {
        '0'
    } else if d == 1 {
        '1'
    } else if d == 2 {
        '2'
    } else if d == 3 {
        '3'
    } else if d == 4 {
        '4'
    } else if d == 5 {
        '5'
    } else if d == 6 {
        '6'
    } else if d == 7 {
        '7'
    } else if d == 8 {
        '8'
    } else {
        '9'
    }
}

/// `n` written in decimal (see `decimal_text`).
pub fn decimal(n: i64) -> (r: String)
    ensures
        r@ == decimal_text(n as int),
{
    let magnitude: u64 = if n < 0 {
        (0i128 - n as i128) as u64
    } else {
        n as u64
    };
    let mut m: u64 = magnitude;
    let mut out: Vec<char> = Vec::new();
    while m >= 10
        invariant
            digits_of(m as nat) + out@ == digits_of(magnitude as nat),
        decreases m,
    {
        let ghost before = out@;
        out.insert(0, digit(m % 10));
        assert(digits_of(m as nat) == digits_of((m / 10) as nat).push(digit_char((m % 10) as int)));
        assert(digits_of((m / 10) as nat) + out@ =~= digits_of(m as nat) + before);
        m = m / 10;
    }
    let ghost before = out@;
    out.insert(0, digit(m));
    assert(out@ =~= digits_of(m as nat) + before);
    if n < 0 {
        out.insert(0, '-');
        assert(out@ =~= seq!['-'] + digits_of(magnitude as nat));
    }
    string_of(&out)
}

/// `s` with each `'` doubled, as SQL string literals write it.
pub open spec fn sql_escaped(s: Seq<char>) -> Seq<char>
    decreases s.len(),
{
    if s.len() == 0 {
        s
    } else {
        let last = s.last();
        if last == '\'' {
            sql_escaped(s.drop_last()) + seq!['\'', '\'']
        } else {
            sql_escaped(s.drop_last()).push(last)
        }
    }
}

/// `s` as the text of an SQL string literal (see `sql_escaped`).
pub fn escape_sql(s: &str) -> (r: String)
    ensures
        r@ == sql_escaped(s@),
{
    let v = chars_of(s);
    let mut out: Vec<char> = Vec::new();
    let mut i: usize = 0;
    while i < v.len()
        invariant
            i <= v.len(),
            v@ == s@,
            out@ == sql_escaped(v@.take(i as int)),
        decreases v.len() - i,
    {
        assert(v@.take(i + 1).drop_last() =~= v@.take(i as int));
        assert(v@.take(i + 1).last() == v@[i as int]);
        if v[i] == '\'' {
            out.push('\'');
            out.push('\'');
            assert(out@ =~= sql_escaped(v@.take(i as int)) + seq!['\'', '\'']);
        } else {
            out.push(v[i]);
        }
        i = i + 1;
    }
    assert(v@.take(i as int) =~= s@);
    string_of(&out)
}

/// The statement that removes an application from the stored block list.
pub fn remove_blocked_app_query(identifier: &AppIdentifier) -> (r: String)
    ensures
        r@ == "DELETE FROM blocked_app WHERE identifier = '"@ + sql_escaped(identifier_text(identifier@)) + "'"@,
{
    let text = identifier.text();
    let quoted = escape_sql(text.as_str());
    concat(concat("DELETE FROM blocked_app WHERE identifier = '", quoted.as_str()).as_str(), "'")
}

/// The position of the first stored entry whose identifier text is `text`, if any:
/// storing an application again updates that entry instead of adding one.
pub fn find_blocked_app(apps: &Vec<BlockedApp>, text: &str) -> (r: Option<usize>)
    ensures
        match r {
            Some(i) => i < apps@.len() && apps@[i as int].identifier@ == text@ && forall|j: int|
                0 <= j < i ==> apps@[j].identifier@ != text@,
            None => forall|j: int| 0 <= j < apps@.len() ==> apps@[j].identifier@ != text@,
        },
{
    let mut i: usize = 0;
    while i < apps.len()
        invariant
            i <= apps.len(),
            forall|j: int| 0 <= j < i ==> apps@[j].identifier@ != text@,
        decreases apps.len() - i,
    {
        if same_text(apps[i].identifier.as_str(), text) {
            return Some(i);
        }
        i = i + 1;
    }
    None
}

/// How a record key is written in a statement: `table:key`, or `NONE` for no record.
pub open spec fn record_literal(id: Option<RecordId>) -> Seq<char> {
    match id {
        Some(r) => r.table@ + ":"@ + r.key@,
        None => "NONE"@,
    }
}

/// The statement that stores a new focus session.
pub fn start_session_query(start: i64, end: i64, task_id: Option<&RecordId>) -> (r: String)
    ensures
        r@ == "CREATE focus_session CONTENT { start_time: "@ + decimal_text(start as int) + ", end_time: "@
            + decimal_text(end as int) + ", task_id: "@ + record_literal(match task_id {
            Some(t) => Some(*t),
            None => None,
        }) + " }"@,
{
    let task = match task_id {
        Some(id) => id.text(),
        None => "NONE".to_owned(),
    };
    let a = concat("CREATE focus_session CONTENT { start_time: ", decimal(start).as_str());
    let b = concat(concat(a.as_str(), ", end_time: ").as_str(), decimal(end).as_str());
    let c = concat(concat(b.as_str(), ", task_id: ").as_str(), task.as_str());
    concat(c.as_str(), " }")
}

/// The statement that finds a focus session under way at `now`.
pub fn active_session_query(now: i64) -> (r: String)
    ensures
        r@ == "SELECT * FROM focus_session WHERE start_time <= "@ + decimal_text(now as int) + " AND end_time > "@
            + decimal_text(now as int) + " LIMIT 1"@,
{
    let n = decimal(now);
    let a = concat("SELECT * FROM focus_session WHERE start_time <= ", n.as_str());
    let b = concat(concat(a.as_str(), " AND end_time > ").as_str(), n.as_str());
    concat(b.as_str(), " LIMIT 1")
}

/// The statement that finds the events overlapping `[range_start, range_end)`.
pub fn events_in_range_query(range_start: i64, range_end: i64) -> (r: String)
    ensures
        r@ == "SELECT * FROM event WHERE starts_at < "@ + decimal_text(range_end as int) + " AND ends_at > "@
            + decimal_text(range_start as int),
{
    let a = concat("SELECT * FROM event WHERE starts_at < ", decimal(range_end).as_str());
    concat(concat(a.as_str(), " AND ends_at > ").as_str(), decimal(range_start).as_str())
}

/// The statement that finds the tasks placed in slots overlapping
/// `[range_start, range_end)`, with the moments they are planned for.
pub fn scheduled_tasks_query(range_start: i64, range_end: i64) -> (r: String)
    ensures
        r@ == "SELECT out.*, scheduled_for FROM contains WHERE in.starts_at < "@ + decimal_text(range_end as int)
            + " AND in.ends_at > "@ + decimal_text(range_start as int),
{
    let a = concat("SELECT out.*, scheduled_for FROM contains WHERE in.starts_at < ", decimal(range_end).as_str());
    concat(concat(a.as_str(), " AND in.ends_at > ").as_str(), decimal(range_start).as_str())
}

/// The statement that finds the slots overlapping `[range_start, range_end)`, each with
/// the tasks placed in it.
pub fn slots_with_tasks_query(range_start: i64, range_end: i64) -> (r: String)
    ensures
        r@ == "SELECT *, ->(SELECT out.*, scheduled_for FROM contains) AS tasks FROM slot WHERE starts_at < "@
            + decimal_text(range_end as int) + " AND ends_at > "@ + decimal_text(range_start as int),
{
    let a = concat(
        "SELECT *, ->(SELECT out.*, scheduled_for FROM contains) AS tasks FROM slot WHERE starts_at < ",
        decimal(range_end).as_str(),
    );
    concat(concat(a.as_str(), " AND ends_at > ").as_str(), decimal(range_start).as_str())
}

/// The seconds in a day.
pub const DAY_SECS: i64 = 86_400;

/// The start and end (Unix timestamps) of the `days` days that begin with day `first`
/// (days counted from 1970-01-01), the end excluded.
pub open spec fn day_range(first: int, days: int) -> (int, int) {
    (first * DAY_SECS, (first + days) * DAY_SECS)
}

/// The time range of one day, for the day's timetable.
pub fn today_range(day: i64) -> (r: (i64, i64))
    requires
        MIN_TIMESTAMP <= day * DAY_SECS,
        (day + 1) * DAY_SECS <= MAX_TIMESTAMP,
    ensures
        r.0 == day_range(day as int, 1).0,
        r.1 == day_range(day as int, 1).1,
{
    (day * DAY_SECS, (day + 1) * DAY_SECS)
}

/// The time range of the week that begins with day `week_start`, for the week's
/// timetable.
pub fn week_range(week_start: i64) -> (r: (i64, i64))
    requires
        MIN_TIMESTAMP <= week_start * DAY_SECS,
        (week_start + 7) * DAY_SECS <= MAX_TIMESTAMP,
    ensures
        r.0 == day_range(week_start as int, 7).0,
        r.1 == day_range(week_start as int, 7).1,
{
    (week_start * DAY_SECS, (week_start + 7) * DAY_SECS)
}

/// How a record key stands in a statement: `table:key`.
pub open spec fn record_ref(id: &RecordId) -> Seq<char> {
    id.table@ + ":"@ + id.key@
}

/// The statement that finds the tasks not completed whose deadline is after `now`.
pub fn uncompleted_tasks_query(now: i64) -> (r: String)
    ensures
        r@ == "SELECT * FROM task WHERE completed = false AND deadline > "@ + decimal_text(now as int),
{
    let t0 = "SELECT * FROM task WHERE completed = false AND deadline > ".to_owned();
    let t1 = concat(t0.as_str(), decimal(now).as_str());
    t1
}

/// The statement that finds the slots that end after `now`, earliest first.
pub fn future_slots_query(now: i64) -> (r: String)
    ensures
        r@ == "SELECT * FROM slot WHERE ends_at > "@ + decimal_text(now as int) + " ORDER BY starts_at ASC"@,
{
    let t0 = "SELECT * FROM slot WHERE ends_at > ".to_owned();
    let t1 = concat(t0.as_str(), decimal(now).as_str());
    let t2 = concat(t1.as_str(), " ORDER BY starts_at ASC");
    t2
}

/// The statement that unlinks a task from the slots it is placed in.
pub fn delete_task_slot_relation_query(task_id: &RecordId) -> (r: String)
    ensures
        r@ == "DELETE FROM contains WHERE out = "@ + record_ref(task_id),
{
    let t0 = "DELETE FROM contains WHERE out = ".to_owned();
    let t1 = concat(t0.as_str(), task_id.text().as_str());
    t1
}

/// The statement that places a task in a slot at a moment.
pub fn relate_task_to_slot_query(slot_id: &RecordId, task_id: &RecordId, scheduled_for: i64) -> (r: String)
    ensures
        r@ == "RELATE "@ + record_ref(slot_id) + "->contains->"@ + record_ref(task_id) + " SET scheduled_for = "@ + decimal_text(scheduled_for as int),
{
    let t0 = "RELATE ".to_owned();
    let t1 = concat(t0.as_str(), slot_id.text().as_str());
    let t2 = concat(t1.as_str(), "->contains->");
    let t3 = concat(t2.as_str(), task_id.text().as_str());
    let t4 = concat(t3.as_str(), " SET scheduled_for = ");
    let t5 = concat(t4.as_str(), decimal(scheduled_for).as_str());
    t5
}

/// The statement that finds the slot a task is placed in. Placements are written
/// `slot->contains->task`, so the task is an edge's `out` and its slot the `in`.
pub fn slot_for_task_query(task_id: &RecordId) -> (r: String)
    ensures
        r@ == "SELECT * FROM ONLY slot WHERE id IN (SELECT in FROM contains WHERE out = "@ + record_ref(task_id) + ") LIMIT 1"@,
{
    let t0 = "SELECT * FROM ONLY slot WHERE id IN (SELECT in FROM contains WHERE out = ".to_owned();
    let t1 = concat(t0.as_str(), task_id.text().as_str());
    let t2 = concat(t1.as_str(), ") LIMIT 1");
    t2
}

/// The statement that finds the tasks placed in a slot: the `out` ends of the
/// `contains` edges whose `in` is the slot.
pub fn tasks_in_slot_query(slot_id: &RecordId) -> (r: String)
    ensures
        r@ == "SELECT * FROM task WHERE id IN (SELECT out FROM contains WHERE in = "@ + record_ref(slot_id) + ")"@,
{
    let t0 = "SELECT * FROM task WHERE id IN (SELECT out FROM contains WHERE in = ".to_owned();
    let t1 = concat(t0.as_str(), slot_id.text().as_str());
    let t2 = concat(t1.as_str(), ")");
    t2
}

/// The statement that puts a task in a task list.
pub fn relate_task_to_list_query(task_id: &RecordId, list_id: &RecordId) -> (r: String)
    ensures
        r@ == "RELATE "@ + record_ref(task_id) + "->belongs_to->"@ + record_ref(list_id),
{
    let t0 = "RELATE ".to_owned();
    let t1 = concat(t0.as_str(), task_id.text().as_str());
    let t2 = concat(t1.as_str(), "->belongs_to->");
    let t3 = concat(t2.as_str(), list_id.text().as_str());
    t3
}

/// The statement that finds the tasks of a task list.
pub fn tasks_in_list_query(list_id: &RecordId) -> (r: String)
    ensures
        r@ == "SELECT in.* FROM belongs_to WHERE out = "@ + record_ref(list_id),
{
    let t0 = "SELECT in.* FROM belongs_to WHERE out = ".to_owned();
    let t1 = concat(t0.as_str(), list_id.text().as_str());
    t1
}

/// The statement that deletes the tasks of a task list.
pub fn delete_tasks_in_list_query(list_id: &RecordId) -> (r: String)
    ensures
        r@ == "DELETE FROM task WHERE id IN (SELECT in FROM belongs_to WHERE out = "@ + record_ref(list_id) + ")"@,
{
    let t0 = "DELETE FROM task WHERE id IN (SELECT in FROM belongs_to WHERE out = ".to_owned();
    let t1 = concat(t0.as_str(), list_id.text().as_str());
    let t2 = concat(t1.as_str(), ")");
    t2
}

/// The statement that removes the placements in a slot, before the slot itself is
/// deleted: the `contains` edges whose `in` is the slot.
pub fn delete_slot_relations_query(slot_id: &RecordId) -> (r: String)
    ensures
        r@ == "DELETE FROM contains WHERE in = "@ + record_ref(slot_id),
{
    let t0 = "DELETE FROM contains WHERE in = ".to_owned();
    concat(t0.as_str(), slot_id.text().as_str())
}

/// The statement that lists the task lists.
pub fn task_lists_query() -> (r: String)
    ensures
        r@ == "SELECT * FROM task_list"@,
{
    "SELECT * FROM task_list".to_owned()
}

/// What storing an application on the block list does: update the entry stored under
/// this key, or create a new entry.
#[derive(Clone, Debug, PartialEq, Eq)]
pub enum UpsertAction {
    Update { key: String },
    Create,
}

/// Storing an application on the block list: where an entry with the same identifier
/// text is stored, the first such entry is updated (by its key within the table);
/// otherwise a new entry is created.
pub fn upsert_action(apps: &Vec<BlockedApp>, identifier: &AppIdentifier) -> (r: UpsertAction)
    ensures
        match r {
            UpsertAction::Update { key } => exists|i: int|
                0 <= i < apps@.len() && apps@[i].identifier@ == identifier_text(identifier@) && key@ == apps@[i].id.key@
                    && forall|j: int| 0 <= j < i ==> apps@[j].identifier@ != identifier_text(identifier@),
            UpsertAction::Create => forall|j: int| 0 <= j < apps@.len() ==> apps@[j].identifier@ != identifier_text(identifier@),
        },
{
    let text = identifier.text();
    match find_blocked_app(apps, text.as_str()) {
        Some(i) => UpsertAction::Update { key: apps[i].id.key.clone() },
        None => UpsertAction::Create,
    }
}

} // verus!

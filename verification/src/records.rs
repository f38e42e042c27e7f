use vstd::prelude::*;
use crate::model::text::{concat, same_text, split_all, split_fields, strings_view};
use crate::model::time::{datetime_of, spec_datetime_of};

verus! {

/// The key of a stored record: its table and its key within the table.
#[derive(Clone, Debug, PartialEq, Eq)]
pub struct RecordId {
    pub table: String,
    pub key: String,
}

impl RecordId {
    pub fn new(table: &str, key: &str) -> (r: RecordId)
        ensures
            r.table@ == table@,
            r.key@ == key@,
    {
        RecordId { table: table.to_owned(), key: key.to_owned() }
    }

    /// An identical copy of this key.
    pub fn duplicate(&self) -> (r: RecordId)
        ensures
            r == *self,
    {
        RecordId { table: self.table.clone(), key: self.key.clone() }
    }

    /// The record's key as text: the table, a colon, and the key within the table.
    pub fn text(&self) -> (r: String)
        ensures
            r@ == self.table@ + ":"@ + self.key@,
    {
        concat(concat(self.table.as_str(), ":").as_str(), self.key.as_str())
    }

    /// Reads a record key written as `table:key`: text with exactly one colon; none for
    /// any other text.
    pub fn parse(text: &str) -> (r: Option<RecordId>)
        ensures
            split_fields(text@, ':').len() == 2 ==> (r matches Some(id) && id.table@ == split_fields(text@, ':')[0]
                && id.key@ == split_fields(text@, ':')[1]),
            split_fields(text@, ':').len() != 2 ==> r is None,
    {
        let parts = split_all(text, ':');
        if parts.len() == 2 {
            assert(parts@[0]@ == strings_view(parts@)[0]);
            assert(parts@[1]@ == strings_view(parts@)[1]);
            Some(RecordId { table: parts[0].clone(), key: parts[1].clone() })
        } else {
            None
        }
    }
}

/// A calendar event: a name, a description, and when it starts and ends (Unix
/// timestamps, seconds).
#[derive(Clone, Debug)]
pub struct Event {
    pub id: RecordId,
    pub name: String,
    pub description: String,
    pub starts_at: i64,
    pub ends_at: i64,
}

impl Event {
    pub fn id(&self) -> (r: &RecordId)
        ensures
            r == &self.id,
    {
        &self.id
    }

    pub fn name(&self) -> (r: &str)
        ensures
            r@ == self.name@,
    {
        self.name.as_str()
    }

    pub fn description(&self) -> (r: &str)
        ensures
            r@ == self.description@,
    {
        self.description.as_str()
    }

    /// When the event starts, read as a calendar time (see `datetime_of`).
    pub fn starts_at(&self) -> (r: i64)
        ensures
            r == spec_datetime_of(self.starts_at as int),
    {
        datetime_of(self.starts_at)
    }

    /// When the event ends, read as a calendar time (see `datetime_of`).
    pub fn ends_at(&self) -> (r: i64)
        ensures
            r == spec_datetime_of(self.ends_at as int),
    {
        datetime_of(self.ends_at)
    }

    pub fn set_name(&mut self, name: String)
        ensures
            *final(self) == (Event { name, ..*old(self) }),
    {
        self.name = name;
    }

    pub fn set_description(&mut self, description: String)
        ensures
            *final(self) == (Event { description, ..*old(self) }),
    {
        self.description = description;
    }

    pub fn set_starts_at(&mut self, starts_at: i64)
        ensures
            *final(self) == (Event { starts_at, ..*old(self) }),
    {
        self.starts_at = starts_at;
    }

    pub fn set_ends_at(&mut self, ends_at: i64)
        ensures
            *final(self) == (Event { ends_at, ..*old(self) }),
    {
        self.ends_at = ends_at;
    }
}

/// A focus session: when it started and when it ends (Unix timestamps, seconds), and
/// the task it is for, if any.
#[derive(Clone, Debug)]
pub struct FocusSession {
    pub id: RecordId,
    pub start_time: i64,
    pub end_time: i64,
    pub task_id: Option<RecordId>,
}

impl FocusSession {
    /// A session not yet stored: its key is the placeholder `focus_session:temp`.
    pub fn new(start: i64, end: i64, task_id: Option<RecordId>) -> (s: FocusSession)
        ensures
            s.id.table@ == "focus_session"@,
            s.id.key@ == "temp"@,
            s.start_time == start,
            s.end_time == end,
            s.task_id == task_id,
    {
        FocusSession { id: RecordId::new("focus_session", "temp"), start_time: start, end_time: end, task_id }
    }

    /// When the session started, read as a calendar time (see `datetime_of`).
    pub fn start_time(&self) -> (r: i64)
        ensures
            r == spec_datetime_of(self.start_time as int),
    {
        datetime_of(self.start_time)
    }

    /// When the session ends, read as a calendar time (see `datetime_of`).
    pub fn end_time(&self) -> (r: i64)
        ensures
            r == spec_datetime_of(self.end_time as int),
    {
        datetime_of(self.end_time)
    }
}

/// A named list of tasks.
#[derive(Clone, Debug)]
pub struct TaskList {
    pub id: RecordId,
    pub title: String,
}

impl TaskList {
    pub fn id(&self) -> (r: &RecordId)
        ensures
            r == &self.id,
    {
        &self.id
    }

    pub fn title(&self) -> (r: &str)
        ensures
            r@ == self.title@,
    {
        self.title.as_str()
    }
}

/// The mathematical model of a stored plan.
pub struct StoredPlanView {
    pub scheduled: Seq<(RecordId, RecordId, int)>,
    pub discarded: Seq<RecordId>,
    pub score: int,
}

/// A plan over stored records: for each placed task its key, the key of its slot and
/// the moment it is planned for (Unix timestamp, seconds); the keys of the tasks given
/// up on; and the plan's score.
#[derive(Clone, Debug)]
pub struct Plan {
    scheduled: Vec<(RecordId, RecordId, i64)>,
    discarded_task_ids: Vec<RecordId>,
    score: u64,
}

impl View for Plan {
    type V = StoredPlanView;

    closed spec fn view(&self) -> StoredPlanView {
        StoredPlanView {
            scheduled: self.scheduled@.map_values(|e: (RecordId, RecordId, i64)| (e.0, e.1, e.2 as int)),
            discarded: self.discarded_task_ids@,
            score: self.score as int,
        }
    }
}

impl Plan {
    /// An empty plan.
    pub fn new() -> (p: Plan)
        ensures
            p@.scheduled.len() == 0,
            p@.discarded.len() == 0,
            p@.score == 0,
    {
        Plan { scheduled: Vec::new(), discarded_task_ids: Vec::new(), score: 0 }
    }

    /// Places a task in a slot at a moment, adding `priority` (its weight) to the score.
    pub fn add_task(&mut self, task_id: RecordId, slot_id: RecordId, scheduled_for: i64, priority: u64)
        requires
            old(self)@.score + priority <= u64::MAX,
        ensures
            final(self)@ == (StoredPlanView {
                scheduled: old(self)@.scheduled.push((task_id, slot_id, scheduled_for as int)),
                score: old(self)@.score + priority,
                ..old(self)@
            }),
    {
        let ghost before = self.scheduled@;
        self.scheduled.push((task_id, slot_id, scheduled_for));
        self.score = self.score + priority;
        assert(self@.scheduled =~= before.map_values(|e: (RecordId, RecordId, i64)| (e.0, e.1, e.2 as int)).push(
            (task_id, slot_id, scheduled_for as int),
        ));
    }

    /// The plan with a task placed in a slot at a moment (see `add_task`).
    pub fn with_task(self, task_id: RecordId, slot_id: RecordId, scheduled_for: i64, priority: u64) -> (p: Plan)
        requires
            self@.score + priority <= u64::MAX,
        ensures
            p@ == (StoredPlanView {
                scheduled: self@.scheduled.push((task_id, slot_id, scheduled_for as int)),
                score: self@.score + priority,
                ..self@
            }),
    {
        let mut p = self;
        p.add_task(task_id, slot_id, scheduled_for, priority);
        p
    }

    /// Records a task as given up on.
    pub fn discard_task(&mut self, task_id: RecordId)
        ensures
            final(self)@ == (StoredPlanView { discarded: old(self)@.discarded.push(task_id), ..old(self)@ }),
    {
        self.discarded_task_ids.push(task_id);
    }

    /// Records the given tasks, in order, as given up on.
    pub fn discard_tasks(&mut self, task_ids: Vec<RecordId>)
        ensures
            final(self)@ == (StoredPlanView { discarded: old(self)@.discarded + task_ids@, ..old(self)@ }),
    {
        let ghost start = self@;
        let mut i: usize = 0;
        while i < task_ids.len()
            invariant
                i <= task_ids.len(),
                self@ == (StoredPlanView { discarded: start.discarded + task_ids@.take(i as int), ..start }),
            decreases task_ids.len() - i,
        {
            self.discarded_task_ids.push(task_ids[i].duplicate());
            assert(task_ids@.take(i + 1) =~= task_ids@.take(i as int).push(task_ids@[i as int]));
            assert(start.discarded + task_ids@.take(i + 1) =~= (start.discarded + task_ids@.take(i as int)).push(
                task_ids@[i as int],
            ));
            i = i + 1;
        }
        assert(task_ids@.take(i as int) =~= task_ids@);
    }

    pub fn score(&self) -> (s: u64)
        ensures
            s == self@.score,
    {
        self.score
    }

    /// The placed tasks: task key, slot key and moment, in the order they were placed.
    pub fn tasks(&self) -> (r: &Vec<(RecordId, RecordId, i64)>)
        ensures
            r@.map_values(|e: (RecordId, RecordId, i64)| (e.0, e.1, e.2 as int)) == self@.scheduled,
    {
        &self.scheduled
    }

    /// The keys of the tasks given up on, in order.
    pub fn discarded_tasks(&self) -> (r: &Vec<RecordId>)
        ensures
            r@ == self@.discarded,
    {
        &self.discarded_task_ids
    }
}

/// What a run of the scheduler reports: how many tasks it planned, and the keys (as
/// `table:key`) of the tasks it gave up on.
#[derive(Clone, Debug)]
pub struct SchedulerResult {
    pub scheduled: usize,
    pub discarded: Vec<String>,
}

/// The keys of records as text, in order.
pub open spec fn record_texts(ids: Seq<RecordId>) -> Seq<Seq<char>> {
    ids.map_values(|id: RecordId| id.table@ + ":"@ + id.key@)
}

fn texts_of(ids: &Vec<RecordId>) -> (r: Vec<String>)
    ensures
        strings_view(r@) == record_texts(ids@),
{
    let mut r: Vec<String> = Vec::new();
    let mut i: usize = 0;
    while i < ids.len()
        invariant
            i <= ids.len(),
            strings_view(r@) == record_texts(ids@).take(i as int),
        decreases ids.len() - i,
    {
        let t = ids[i].text();
        let ghost before = r@;
        r.push(t);
        assert(strings_view(r@) =~= strings_view(before).push(t@));
        assert(record_texts(ids@).take(i + 1) =~= record_texts(ids@).take(i as int).push(t@));
        i = i + 1;
    }
    assert(record_texts(ids@).take(i as int) =~= record_texts(ids@));
    r
}

impl SchedulerResult {
    /// The report when there is no task to plan: nothing planned, nothing given up.
    pub fn nothing_to_plan() -> (r: SchedulerResult)
        ensures
            r.scheduled == 0,
            r.discarded@.len() == 0,
    {
        SchedulerResult { scheduled: 0, discarded: Vec::new() }
    }

    /// The report when there is no slot ahead: nothing planned, every task given up.
    pub fn no_slots(task_ids: &Vec<RecordId>) -> (r: SchedulerResult)
        ensures
            r.scheduled == 0,
            strings_view(r.discarded@) == record_texts(task_ids@),
    {
        SchedulerResult { scheduled: 0, discarded: texts_of(task_ids) }
    }

    /// The report on a plan: the number of tasks it placed, and the tasks it gave up.
    pub fn from_plan(scheduled: usize, discarded: &Vec<RecordId>) -> (r: SchedulerResult)
        ensures
            r.scheduled == scheduled,
            strings_view(r.discarded@) == record_texts(discarded@),
    {
        SchedulerResult { scheduled, discarded: texts_of(discarded) }
    }
}


/// What the reading of a stored record's field looks at: a string's text, an object's
/// keys in order, or nothing (any other value).
#[derive(Clone, Debug)]
pub enum FieldValue {
    Text(String),
    Keys(Vec<String>),
    Other,
}

/// The mathematical model of a `FieldValue`.
pub enum FieldValueView {
    Text(Seq<char>),
    Keys(Seq<Seq<char>>),
    Other,
}

impl View for FieldValue {
    type V = FieldValueView;

    open spec fn view(&self) -> FieldValueView {
        match self {
            FieldValue::Text(s) => FieldValueView::Text(s@),
            FieldValue::Keys(ks) => FieldValueView::Keys(strings_view(ks@)),
            FieldValue::Other => FieldValueView::Other,
        }
    }
}

/// What becomes of a field of a stored record when it is read back as a model value.
#[derive(Clone, Debug, PartialEq, Eq)]
pub enum FieldAction {
    /// The field becomes a record key with this table and key.
    RecordKey { table: String, key: String },
    /// The field becomes this string.
    Text(String),
    /// The field is kept as it is.
    Keep,
    /// The field is left out.
    Drop,
}

/// The mathematical model of a `FieldAction`.
pub enum FieldActionView {
    RecordKey(Seq<char>, Seq<char>),
    Text(Seq<char>),
    Keep,
    Drop,
}

impl View for FieldAction {
    type V = FieldActionView;

    open spec fn view(&self) -> FieldActionView {
        match self {
            FieldAction::RecordKey { table, key } => FieldActionView::RecordKey(table@, key@),
            FieldAction::Text(s) => FieldActionView::Text(s@),
            FieldAction::Keep => FieldActionView::Keep,
            FieldAction::Drop => FieldActionView::Drop,
        }
    }
}

/// The action for field `name` holding `value`: an `id` written `table:key` becomes a
/// record key (any other `id` is left out); a `priority` object becomes the name of its
/// first key (any other `priority` is left out); other fields are kept.
pub open spec fn field_action(name: Seq<char>, value: FieldValueView) -> FieldActionView {
    if name == "id"@ {
        match value {
            FieldValueView::Text(s) => {
                let parts = split_fields(s, ':');
                if parts.len() == 2 {
                    FieldActionView::RecordKey(parts[0], parts[1])
                } else {
                    FieldActionView::Drop
                }
            },
            _ => FieldActionView::Drop,
        }
    } else if name == "priority"@ {
        match value {
            FieldValueView::Keys(ks) => {
                if ks.len() > 0 {
                    FieldActionView::Text(ks[0])
                } else {
                    FieldActionView::Drop
                }
            },
            _ => FieldActionView::Drop,
        }
    } else {
        FieldActionView::Keep
    }
}

/// Decides what becomes of a field of a stored record (see `field_action`).
pub fn read_field(name: &str, value: &FieldValue) -> (r: FieldAction)
    ensures
        r@ == field_action(name@, value@),
{
    if same_text(name, "id") {
        match value {
            FieldValue::Text(s) => match RecordId::parse(s.as_str()) {
                Some(id) => FieldAction::RecordKey { table: id.table, key: id.key },
                None => FieldAction::Drop,
            },
            _ => FieldAction::Drop,
        }
    } else if same_text(name, "priority") {
        match value {
            FieldValue::Keys(ks) => {
                if ks.len() > 0 {
                    assert(strings_view(ks@)[0] == ks@[0]@);
                    FieldAction::Text(ks[0].clone())
                } else {
                    FieldAction::Drop
                }
            },
            _ => FieldAction::Drop,
        }
    } else {
        FieldAction::Keep
    }
}

} // verus!

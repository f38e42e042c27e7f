use vstd::prelude::*;
use crate::model::text::{chars_lt, lemma_chars_lt_irreflexive, lemma_chars_lt_total, lemma_chars_lt_transitive, same_text, str_lt};
use crate::model::time::{spec_datetime_of, datetime_of};
use crate::model::plan::ScheduledTask;

verus! {

/// How important a task is. The scheduler prefers plans with a higher total weight.
#[derive(Clone, Copy, Debug, PartialEq, Eq, Hash)]
pub enum Priority {
    Low,
    Medium,
    High,
}

/// The weight that a priority contributes to a plan's score: the square of its rank.
pub open spec fn priority_weight(p: Priority) -> nat {
    match p {
        Priority::Low => 1,
        Priority::Medium => 4,
        Priority::High => 9,
    }
}

impl Priority {
    /// The weight of this priority: 1, 4 or 9 (the square of its rank).
    pub fn weight(&self) -> (w: u64)
        ensures
            w == priority_weight(*self),
    {
        let rank: u64 = match self {
            Priority::Low => 1,
            Priority::Medium => 2,
            Priority::High => 3,
        };
        rank * rank
    }
}

impl Priority {
    /// Reads a priority from its name: `Low`, `Medium` or `High`; any other text is
    /// the error `Invalid priority`.
    pub fn from_name(name: &str) -> (r: Result<Priority, String>)
        ensures
            name@ == "Low"@ ==> r == Ok::<Priority, String>(Priority::Low),
            name@ == "Medium"@ ==> r == Ok::<Priority, String>(Priority::Medium),
            name@ == "High"@ ==> r == Ok::<Priority, String>(Priority::High),
            name@ != "Low"@ && name@ != "Medium"@ && name@ != "High"@ ==> r is Err && r->Err_0@
                == "Invalid priority"@,
    {
        proof {
            reveal_strlit("Low");
            reveal_strlit("Medium");
            reveal_strlit("High");
            assert("Low"@[0] == 'L' && "Medium"@[0] == 'M' && "High"@[0] == 'H');
            assert("Low"@ != "Medium"@ && "Low"@ != "High"@ && "Medium"@ != "High"@);
        }
        if same_text(name, "Low") {
            Ok(Priority::Low)
        } else if same_text(name, "Medium") {
            Ok(Priority::Medium)
        } else if same_text(name, "High") {
            Ok(Priority::High)
        } else {
            Err("Invalid priority".to_owned())
        }
    }
}

impl From<Priority> for u64 {
    /// The weight of a priority.
    fn from(value: Priority) -> (w: u64) {
        value.weight()
    }
}

impl vstd::std_specs::convert::FromSpecImpl<Priority> for u64 {
    open spec fn obeys_from_spec() -> bool {
        true
    }

    open spec fn from_spec(v: Priority) -> u64 {
        priority_weight(v) as u64
    }
}

impl<'a> From<&'a Priority> for u64 {
    /// The weight of a priority, read through a reference: the same as for the
    /// priority itself.
    fn from(value: &'a Priority) -> (w: u64) {
        value.weight()
    }
}

impl<'a> vstd::std_specs::convert::FromSpecImpl<&'a Priority> for u64 {
    open spec fn obeys_from_spec() -> bool {
        true
    }

    open spec fn from_spec(v: &'a Priority) -> u64 {
        priority_weight(*v) as u64
    }
}

/// Reading a weight through a reference gives the weight of the priority itself.
pub proof fn law_weight_by_reference(p: Priority)
    ensures
        <u64 as vstd::std_specs::convert::FromSpec<&Priority>>::from_spec(&p)
            == <u64 as vstd::std_specs::convert::FromSpec<Priority>>::from_spec(p),
        <u64 as vstd::std_specs::convert::FromSpec<Priority>>::from_spec(Priority::Low) == 1,
        <u64 as vstd::std_specs::convert::FromSpec<Priority>>::from_spec(Priority::Medium) == 4,
        <u64 as vstd::std_specs::convert::FromSpec<Priority>>::from_spec(Priority::High) == 9,
{
}

impl Default for Priority {
    /// A task is of medium priority unless told otherwise.
    fn default() -> (p: Priority)
        ensures
            p == Priority::Medium,
    {
        Priority::Medium
    }
}

/// A task to be planned. Durations are in seconds, deadlines are Unix timestamps
/// in seconds.
#[derive(Clone, Debug, PartialEq, Eq, Hash)]
pub struct Task {
    name: String,
    description: String,
    priority: Priority,
    estimated_duration: i64,
    deadline: i64,
}

/// The mathematical model of a task.
pub struct TaskView {
    pub name: Seq<char>,
    pub description: Seq<char>,
    pub priority: Priority,
    pub duration: int,
    pub deadline: int,
}

impl View for Task {
    type V = TaskView;

    closed spec fn view(&self) -> TaskView {
        TaskView {
            name: self.name@,
            description: self.description@,
            priority: self.priority,
            duration: self.estimated_duration as int,
            deadline: self.deadline as int,
        }
    }
}

/// The order in which tasks of equal duration are kept: by weight, then by deadline,
/// then by name, then by description. The scheduler takes the greatest first.
pub open spec fn task_lt(a: TaskView, b: TaskView) -> bool {
    ||| priority_weight(a.priority) < priority_weight(b.priority)
    ||| priority_weight(a.priority) == priority_weight(b.priority) && a.deadline < b.deadline
    ||| priority_weight(a.priority) == priority_weight(b.priority) && a.deadline == b.deadline
        && chars_lt(a.name, b.name)
    ||| priority_weight(a.priority) == priority_weight(b.priority) && a.deadline == b.deadline
        && a.name == b.name && chars_lt(a.description, b.description)
}

/// Two tasks hold the same place in the order.
pub open spec fn same_rank(a: TaskView, b: TaskView) -> bool {
    &&& a.priority == b.priority
    &&& a.deadline == b.deadline
    &&& a.name == b.name
    &&& a.description == b.description
}

pub proof fn lemma_task_lt_strict(a: TaskView, b: TaskView)
    ensures
        task_lt(a, b) ==> !task_lt(b, a),
        task_lt(a, b) ==> !same_rank(a, b),
        !same_rank(a, b) ==> task_lt(a, b) || task_lt(b, a),
{
    lemma_chars_lt_total(a.name, b.name);
    lemma_chars_lt_total(a.description, b.description);
    lemma_chars_lt_irreflexive(a.name);
    lemma_chars_lt_irreflexive(a.description);
}

/// Among tasks of one duration (one row of the duration table) the task order is a
/// strict total order that agrees with equality: two such tasks are unordered exactly
/// when they are equal; at most one comes before the other; and a lower priority weight
/// comes first.
pub proof fn law_task_order(a: TaskView, b: TaskView)
    requires
        a.duration == b.duration,
    ensures
        (!task_lt(a, b) && !task_lt(b, a)) <==> a == b,
        task_lt(a, b) ==> !task_lt(b, a),
        priority_weight(a.priority) < priority_weight(b.priority) ==> task_lt(a, b),
{
    lemma_task_lt_strict(a, b);
    lemma_task_lt_strict(a, a);
    if !task_lt(a, b) && !task_lt(b, a) {
        assert(same_rank(a, b));
        assert(a.priority == b.priority);
    }
}

pub proof fn lemma_task_lt_transitive(a: TaskView, b: TaskView, c: TaskView)
    requires
        task_lt(a, b),
        task_lt(b, c),
    ensures
        task_lt(a, c),
{
    if chars_lt(a.name, b.name) && chars_lt(b.name, c.name) {
        lemma_chars_lt_transitive(a.name, b.name, c.name);
    }
    if chars_lt(a.description, b.description) && chars_lt(b.description, c.description) {
        lemma_chars_lt_transitive(a.description, b.description, c.description);
    }
}

impl Task {
    /// A task with the given name, description, priority, estimated duration (seconds)
    /// and deadline (Unix timestamp, seconds).
    pub fn new(
        name: String,
        description: String,
        priority: Priority,
        estimated_duration: i64,
        deadline: i64,
    ) -> (t: Task)
        ensures
            t@ == (TaskView {
                name: name@,
                description: description@,
                priority,
                duration: estimated_duration as int,
                deadline: deadline as int,
            }),
    {
        Task { name, description, priority, estimated_duration, deadline }
    }

    /// The task placed at moment `schedule_for` (Unix timestamp, seconds).
    pub fn schedule<'a>(&'a self, schedule_for: i64) -> (s: ScheduledTask<'a>)
        ensures
            s@ == (self@, schedule_for as int),
    {
        ScheduledTask::new(self, schedule_for)
    }

    pub fn name(&self) -> (r: &str)
        ensures
            r@ == self@.name,
    {
        self.name.as_str()
    }

    pub fn description(&self) -> (r: &str)
        ensures
            r@ == self@.description,
    {
        self.description.as_str()
    }

    pub fn priority(&self) -> (r: &Priority)
        ensures
            *r == self@.priority,
    {
        &self.priority
    }

    /// The estimated duration, in seconds.
    pub fn estimated_duration(&self) -> (r: i64)
        ensures
            r == self@.duration,
    {
        self.estimated_duration
    }

    /// The deadline, as a Unix timestamp in seconds.
    pub fn deadline(&self) -> (r: i64)
        ensures
            r == self@.deadline,
    {
        self.deadline
    }

    /// The deadline as a calendar timestamp: the deadline itself where the calendar
    /// can represent it, the Unix epoch otherwise.
    pub fn deadline_as_datetime(&self) -> (r: i64)
        ensures
            r == spec_datetime_of(self@.deadline),
    {
        datetime_of(self.deadline)
    }

    /// The same as `deadline_as_datetime`.
    pub fn deadline_datetime(&self) -> (r: i64)
        ensures
            r == spec_datetime_of(self@.deadline),
    {
        datetime_of(self.deadline)
    }

    pub fn set_name(&mut self, name: String)
        ensures
            final(self)@ == (TaskView { name: name@, ..old(self)@ }),
    {
        self.name = name;
    }

    pub fn set_description(&mut self, description: String)
        ensures
            final(self)@ == (TaskView { description: description@, ..old(self)@ }),
    {
        self.description = description;
    }

    pub fn set_priority(&mut self, priority: Priority)
        ensures
            final(self)@ == (TaskView { priority, ..old(self)@ }),
    {
        self.priority = priority;
    }

    /// Sets the estimated duration, in seconds.
    pub fn set_estimated_duration(&mut self, estimated_duration: i64)
        ensures
            final(self)@ == (TaskView { duration: estimated_duration as int, ..old(self)@ }),
    {
        self.estimated_duration = estimated_duration;
    }

    /// Sets the deadline, as a Unix timestamp in seconds.
    pub fn set_deadline(&mut self, deadline: i64)
        ensures
            final(self)@ == (TaskView { deadline: deadline as int, ..old(self)@ }),
    {
        self.deadline = deadline;
    }

    /// An identical copy of the task.
    pub fn duplicate(&self) -> (r: Task)
        ensures
            r@ == self@,
    {
        Task {
            name: self.name.clone(),
            description: self.description.clone(),
            priority: self.priority,
            estimated_duration: self.estimated_duration,
            deadline: self.deadline,
        }
    }

    /// Whether the two tasks agree in every field.
    pub fn same_task(&self, other: &Task) -> (r: bool)
        ensures
            r == (self@ == other@),
    {
        same_text(self.name.as_str(), other.name.as_str()) && same_text(
            self.description.as_str(),
            other.description.as_str(),
        ) && self.priority.weight() == other.priority.weight()
            && self.estimated_duration == other.estimated_duration && self.deadline == other.deadline
    }

    /// Compares two tasks by priority weight, then deadline, name and description:
    /// true when `self` comes first.
    pub fn ranks_below(&self, other: &Task) -> (r: bool)
        ensures
            r == task_lt(self@, other@),
    {
        let wa = self.priority.weight();
        let wb = other.priority.weight();
        if wa != wb {
            return wa < wb;
        }
        if self.deadline != other.deadline {
            return self.deadline < other.deadline;
        }
        if str_lt(self.name.as_str(), other.name.as_str()) {
            return true;
        }
        if str_lt(other.name.as_str(), self.name.as_str()) {
            proof {
                lemma_chars_lt_total(self@.name, other@.name);
                lemma_chars_lt_irreflexive(self@.name);
            }
            return false;
        }
        proof {
            lemma_chars_lt_total(self@.name, other@.name);
        }
        str_lt(self.description.as_str(), other.description.as_str())
    }

    /// True when the two tasks have the same rank (see `same_rank`).
    pub fn ranks_with(&self, other: &Task) -> (r: bool)
        ensures
            r == same_rank(self@, other@),
    {
        proof {
            lemma_task_lt_strict(self@, other@);
        }
        !self.ranks_below(other) && !other.ranks_below(self)
    }
}

} // verus!

use vstd::prelude::*;
use crate::model::task::{Task, TaskView, priority_weight};

verus! {

/// A task placed in the plan at a moment (Unix timestamp, seconds).
#[derive(Clone, Copy, Debug)]
pub struct ScheduledTask<'a> {
    task: &'a Task,
    scheduled_for: i64,
}

impl<'a> View for ScheduledTask<'a> {
    type V = (TaskView, int);

    closed spec fn view(&self) -> (TaskView, int) {
        (self.task@, self.scheduled_for as int)
    }
}

impl<'a> ScheduledTask<'a> {
    pub fn new(task: &'a Task, scheduled_for: i64) -> (s: ScheduledTask<'a>)
        ensures
            s@ == (task@, scheduled_for as int),
    {
        ScheduledTask { task, scheduled_for }
    }

    pub fn task(&self) -> (t: &'a Task)
        ensures
            t@ == self@.0,
    {
        self.task
    }

    /// When the task is planned to start, as a Unix timestamp in seconds.
    pub fn scheduled_for(&self) -> (r: i64)
        ensures
            r == self@.1,
    {
        self.scheduled_for
    }
}

/// The total weight of the planned tasks.
pub open spec fn weight_sum(tasks: Seq<(TaskView, int)>) -> nat
    decreases tasks.len(),
{
    if tasks.len() == 0 {
        0
    } else {
        weight_sum(tasks.drop_last()) + priority_weight(tasks.last().0.priority)
    }
}

/// The mathematical model of a plan.
pub struct PlanView {
    pub tasks: Seq<(TaskView, int)>,
    pub discarded: Seq<TaskView>,
    pub score: int,
}

/// The plan with `task` added at the end and its weight added to the score.
pub open spec fn plan_with(p: PlanView, task: (TaskView, int)) -> PlanView {
    PlanView {
        tasks: p.tasks.push(task),
        score: p.score + priority_weight(task.0.priority),
        ..p
    }
}

/// A plan: the tasks placed so far, the tasks given up on, and the plan's score.
pub struct Plan<'a> {
    tasks: Vec<ScheduledTask<'a>>,
    discarded_tasks: Vec<&'a Task>,
    score: u64,
}

impl<'a> View for Plan<'a> {
    type V = PlanView;

    closed spec fn view(&self) -> PlanView {
        PlanView {
            tasks: self.tasks@.map_values(|t: ScheduledTask<'a>| t@),
            discarded: self.discarded_tasks@.map_values(|t: &'a Task| t@),
            score: self.score as int,
        }
    }
}

impl<'a> Plan<'a> {
    /// An empty plan with score 0.
    pub fn new() -> (p: Plan<'a>)
        ensures
            p@ == (PlanView { tasks: Seq::empty(), discarded: Seq::empty(), score: 0 }),
    {
        let p = Plan { tasks: Vec::new(), discarded_tasks: Vec::new(), score: 0 };
        assert(p@.tasks =~= Seq::empty());
        assert(p@.discarded =~= Seq::empty());
        p
    }

    /// Adds a task at the end of the plan; its priority's weight is added to the score.
    pub fn add_task(&mut self, task: ScheduledTask<'a>)
        requires
            old(self)@.score + priority_weight(task@.0.priority) <= u64::MAX,
        ensures
            final(self)@ == plan_with(old(self)@, task@),
    {
        let w = task.task.priority().weight();
        self.tasks.push(task);
        self.score = self.score + w;
        assert(self@.tasks =~= old(self)@.tasks.push(task@));
        assert(self@.discarded =~= old(self)@.discarded);
    }

    /// The plan with a task added at the end and its weight added to the score.
    pub fn with_task(self, task: ScheduledTask<'a>) -> (p: Plan<'a>)
        requires
            self@.score + priority_weight(task@.0.priority) <= u64::MAX,
        ensures
            p@ == plan_with(self@, task@),
    {
        let mut p = self;
        p.add_task(task);
        p
    }

    /// Records a task as given up on.
    pub fn discard_task(&mut self, task: &'a Task)
        ensures
            final(self)@ == (PlanView { discarded: old(self)@.discarded.push(task@), ..old(self)@ }),
    {
        self.discarded_tasks.push(task);
        assert(self@.tasks =~= old(self)@.tasks);
        assert(self@.discarded =~= old(self)@.discarded.push(task@));
    }

    /// Records the given tasks, in order, as given up on.
    pub fn discard_tasks(&mut self, tasks: &Vec<&'a Task>)
        ensures
            final(self)@ == (PlanView {
                discarded: old(self)@.discarded + tasks@.map_values(|t: &'a Task| t@),
                ..old(self)@
            }),
    {
        let mut i: usize = 0;
        while i < tasks.len()
            invariant
                i <= tasks.len(),
                self@ == (PlanView {
                    discarded: old(self)@.discarded + tasks@.take(i as int).map_values(|t: &'a Task| t@),
                    ..old(self)@
                }),
            decreases tasks.len() - i,
        {
            self.discard_task(tasks[i]);
            assert(tasks@.take(i + 1).map_values(|t: &'a Task| t@)
                =~= tasks@.take(i as int).map_values(|t: &'a Task| t@).push(tasks@[i as int]@));
            assert(old(self)@.discarded + tasks@.take(i + 1).map_values(|t: &'a Task| t@)
                =~= (old(self)@.discarded + tasks@.take(i as int).map_values(|t: &'a Task| t@)).push(tasks@[i as int]@));
            i = i + 1;
        }
        assert(tasks@.take(i as int) =~= tasks@);
    }

    pub fn score(&self) -> (s: u64)
        ensures
            s == self@.score,
    {
        self.score
    }

    pub fn tasks(&self) -> (r: &Vec<ScheduledTask<'a>>)
        ensures
            r@.map_values(|t: ScheduledTask<'a>| t@) == self@.tasks,
    {
        &self.tasks
    }

    pub fn discarded_tasks(&self) -> (r: &Vec<&'a Task>)
        ensures
            r@.map_values(|t: &'a Task| t@) == self@.discarded,
    {
        &self.discarded_tasks
    }

    /// The planned task at position `index`.
    pub fn index(&self, index: usize) -> (r: &ScheduledTask<'a>)
        requires
            index < self@.tasks.len(),
        ensures
            r@ == self@.tasks[index as int],
    {
        &self.tasks[index]
    }

    /// A copy of this plan that refers to the same tasks.
    pub fn duplicate(&self) -> (p: Plan<'a>)
        ensures
            p@ == self@,
    {
        let mut tasks: Vec<ScheduledTask<'a>> = Vec::new();
        let mut i: usize = 0;
        while i < self.tasks.len()
            invariant
                i <= self.tasks.len(),
                tasks@ == self.tasks@.take(i as int),
            decreases self.tasks.len() - i,
        {
            tasks.push(self.tasks[i]);
            assert(self.tasks@.take(i + 1) =~= self.tasks@.take(i as int).push(self.tasks@[i as int]));
            i = i + 1;
        }
        let mut discarded: Vec<&'a Task> = Vec::new();
        let mut j: usize = 0;
        while j < self.discarded_tasks.len()
            invariant
                j <= self.discarded_tasks.len(),
                discarded@ == self.discarded_tasks@.take(j as int),
            decreases self.discarded_tasks.len() - j,
        {
            discarded.push(self.discarded_tasks[j]);
            assert(self.discarded_tasks@.take(j + 1)
                =~= self.discarded_tasks@.take(j as int).push(self.discarded_tasks@[j as int]));
            j = j + 1;
        }
        assert(tasks@ =~= self.tasks@);
        assert(discarded@ =~= self.discarded_tasks@);
        Plan { tasks, discarded_tasks: discarded, score: self.score }
    }
}

} // verus!

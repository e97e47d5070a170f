//! The batch of download tasks: which task starts next, how many run at
//! once, how many have succeeded, and when the batch is complete.
//!
//! A batch is assembled as a [`DownloadBatch`] and dispatched into an
//! [`Orchestrator`], the state that the workers share. A worker takes its
//! task with `start_next`, reports its downloader's events, and the caller
//! is done when `is_complete` holds.

use crate::progress::LineSignal;
use crate::task::{
    signal_rate, BatchCounter, FailureKind, StepError, TaskProgress, TaskState, TaskView,
    FULL_PERCENT,
};
use vstd::prelude::*;

verus! {

/// Number of tasks that run at once unless the caller says otherwise.
pub const DEFAULT_CAPACITY: usize = 12;

/// Why a batch could not be assembled.
#[derive(Debug, Clone, Copy, PartialEq, Eq, Structural)]
pub enum BatchError {
    /// There is no episode to download.
    Empty,
    /// The worker pool would have no worker.
    NoWorkers,
}

/// Where a batch stands.
#[derive(Debug, Clone, Copy, PartialEq, Eq, Structural)]
pub enum BatchPhase {
    /// The batch is being put together; nothing is queued yet.
    Assembling,
    /// Every task is queued and none has started.
    Dispatched,
    /// Some task has started and some task is not terminal yet.
    Draining,
    /// Every task is terminal.
    Complete,
}

/// One where `hit` holds, zero where it does not.
pub open spec fn unit(hit: bool) -> nat {
    if hit {
        1
    } else {
        0
    }
}

/// How many of `tasks` are in `state`.
pub open spec fn count_state(tasks: Seq<TaskView>, state: TaskState) -> nat
    decreases tasks.len(),
{
    if tasks.len() == 0 {
        0
    } else {
        count_state(tasks.drop_last(), state) + unit(tasks.last().state == state)
    }
}

/// What a batch that is being assembled holds.
pub struct PlanView {
    /// The episode sources, in download order.
    pub sources: Seq<String>,
    /// The directory that the downloads go to.
    pub directory: Seq<char>,
    /// How many tasks may run at once.
    pub capacity: nat,
}

/// What a dispatched batch holds.
pub struct BatchView {
    /// The episode sources, in download order.
    pub sources: Seq<String>,
    /// The directory that the downloads go to.
    pub directory: Seq<char>,
    /// The record of each task, in the order of the sources.
    pub tasks: Seq<TaskView>,
    /// How many tasks may run at once.
    pub capacity: nat,
    /// How many tasks have been started: the position of the task that
    /// starts next.
    pub next: nat,
    /// The shared count of successes.
    pub completed: nat,
}

impl BatchView {
    /// The batch right after dispatch: one pending task per source.
    pub open spec fn dispatched(plan: PlanView) -> BatchView {
        BatchView {
            sources: plan.sources,
            directory: plan.directory,
            tasks: Seq::new(plan.sources.len(), |i: int| TaskView::fresh((i + 1) as nat)),
            capacity: plan.capacity,
            next: 0,
            completed: 0,
        }
    }

    /// How many tasks are running.
    pub open spec fn running(self) -> nat {
        count_state(self.tasks, TaskState::Running)
    }

    /// How many tasks have succeeded.
    pub open spec fn succeeded(self) -> nat {
        count_state(self.tasks, TaskState::Succeeded)
    }

    /// How many tasks have failed.
    pub open spec fn failed(self) -> nat {
        count_state(self.tasks, TaskState::Failed(FailureKind::Spawn)) + count_state(
            self.tasks,
            TaskState::Failed(FailureKind::Exit),
        )
    }

    /// Whether every task is terminal.
    pub open spec fn is_complete(self) -> bool {
        forall|i: int| 0 <= i < self.tasks.len() ==> (#[trigger] self.tasks[i]).is_terminal()
    }

    /// Where the batch stands.
    pub open spec fn phase(self) -> BatchPhase {
        if self.is_complete() {
            BatchPhase::Complete
        } else if self.next == 0 {
            BatchPhase::Dispatched
        } else {
            BatchPhase::Draining
        }
    }

    /// Whether a task can be started: one is pending and a worker is free.
    pub open spec fn can_start(self) -> bool {
        self.next < self.tasks.len() && self.running() < self.capacity
    }

    /// Whether the task at `position` exists and is running.
    pub open spec fn is_running(self, position: int) -> bool {
        0 <= position < self.tasks.len() && self.tasks[position].state == TaskState::Running
    }

    /// The batch with the record at `position` replaced.
    pub open spec fn with_task(self, position: int, task: TaskView) -> BatchView {
        BatchView { tasks: self.tasks.update(position, task), ..self }
    }

    /// The batch after the pending task that is first in line was started.
    pub open spec fn after_start(self) -> BatchView {
        BatchView {
            tasks: self.tasks.update(self.next as int, self.tasks[self.next as int].started()),
            next: self.next + 1,
            ..self
        }
    }

    /// The batch after the downloader of the task at `position` exited.
    pub open spec fn after_exit(self, position: int, success: bool) -> BatchView {
        BatchView {
            tasks: self.tasks.update(
                position,
                self.tasks[position].exited(success, self.completed),
            ),
            completed: self.completed + unit(success),
            ..self
        }
    }

    /// What holds of a batch at every moment from dispatch on.
    pub open spec fn inv(self) -> bool {
        &&& self.tasks.len() >= 1
        &&& self.sources.len() == self.tasks.len()
        &&& self.capacity >= 1
        &&& self.next <= self.tasks.len()
        &&& forall|i: int|
            0 <= i < self.tasks.len() ==> {
                &&& (#[trigger] self.tasks[i]).index == i + 1
                &&& self.tasks[i].percent <= FULL_PERCENT
            }
        &&& forall|i: int|
            0 <= i < self.next ==> (#[trigger] self.tasks[i]).state != TaskState::Pending
        &&& forall|i: int|
            self.next <= i < self.tasks.len() ==> #[trigger] self.tasks[i] == TaskView::fresh(
                (i + 1) as nat,
            )
        &&& self.running() + self.succeeded() + self.failed() == self.next
        &&& self.running() <= self.capacity
        &&& self.completed == self.succeeded()
        &&& forall|i: int|
            0 <= i < self.tasks.len() && (#[trigger] self.tasks[i]).state == TaskState::Succeeded
                ==> 1 <= self.tasks[i].completed <= self.completed
        &&& forall|i: int, j: int|
            0 <= i < self.tasks.len() && 0 <= j < self.tasks.len() && i != j && (
            #[trigger] self.tasks[i]).state == TaskState::Succeeded && (
            #[trigger] self.tasks[j]).state == TaskState::Succeeded ==> self.tasks[i].completed
                != self.tasks[j].completed
    }
}

/// Replacing one record moves one unit of the count from its old state to
/// its new one.
pub proof fn lemma_count_update(tasks: Seq<TaskView>, i: int, task: TaskView, state: TaskState)
    requires
        0 <= i < tasks.len(),
    ensures
        count_state(tasks.update(i, task), state) + unit(tasks[i].state == state) == count_state(
            tasks,
            state,
        ) + unit(task.state == state),
    decreases tasks.len(),
{
    let updated = tasks.update(i, task);
    if i == tasks.len() - 1 {
        assert(updated.drop_last() =~= tasks.drop_last());
    } else {
        lemma_count_update(tasks.drop_last(), i, task, state);
        assert(updated.drop_last() =~= tasks.drop_last().update(i, task));
    }
}

/// The count of a state is at most the number of records, and it is zero
/// exactly when no record is in that state.
pub proof fn lemma_count_bounds(tasks: Seq<TaskView>, state: TaskState)
    ensures
        count_state(tasks, state) <= tasks.len(),
        count_state(tasks, state) == 0 <==> forall|i: int|
            0 <= i < tasks.len() ==> (#[trigger] tasks[i]).state != state,
    decreases tasks.len(),
{
    if tasks.len() > 0 {
        let front = tasks.drop_last();
        lemma_count_bounds(front, state);
        assert(forall|i: int| 0 <= i < front.len() ==> front[i] == tasks[i]);
        if count_state(tasks, state) == 0 {
            assert forall|i: int| 0 <= i < tasks.len() implies (#[trigger] tasks[i]).state
                != state by {
                if i < front.len() {
                    assert(front[i].state != state);
                }
            }
        }
        if forall|i: int| 0 <= i < tasks.len() ==> (#[trigger] tasks[i]).state != state {
            assert forall|i: int| 0 <= i < front.len() implies (#[trigger] front[i]).state
                != state by {
                assert(tasks[i].state != state);
            }
            assert(tasks.last() == tasks[tasks.len() - 1]);
        }
    }
}

/// Where every record is in one state, the count of that state is the
/// number of records.
pub proof fn lemma_count_all(tasks: Seq<TaskView>, state: TaskState)
    requires
        forall|i: int| 0 <= i < tasks.len() ==> (#[trigger] tasks[i]).state == state,
    ensures
        count_state(tasks, state) == tasks.len(),
    decreases tasks.len(),
{
    if tasks.len() > 0 {
        let front = tasks.drop_last();
        assert forall|i: int| 0 <= i < front.len() implies (#[trigger] front[i]).state
            == state by {
            assert(front[i] == tasks[i]);
        }
        lemma_count_all(front, state);
        assert(tasks.last() == tasks[tasks.len() - 1]);
    }
}

/// The shared counter is the number of tasks that have succeeded; so when
/// every task of a batch has succeeded, the counter is the number of tasks.
pub proof fn lemma_counter_counts_successes(batch: BatchView)
    requires
        batch.inv(),
    ensures
        batch.completed == batch.succeeded(),
        batch.completed <= batch.tasks.len(),
        (forall|i: int|
            0 <= i < batch.tasks.len() ==> (#[trigger] batch.tasks[i]).state
                == TaskState::Succeeded) ==> batch.completed == batch.tasks.len(),
{
    lemma_count_bounds(batch.tasks, TaskState::Succeeded);
    if forall|i: int|
        0 <= i < batch.tasks.len() ==> (#[trigger] batch.tasks[i]).state == TaskState::Succeeded {
        lemma_count_all(batch.tasks, TaskState::Succeeded);
    }
}

/// No two tasks that have succeeded read the same count when they did, and
/// each read a count between one and the counter's present value.
pub proof fn lemma_success_counts_differ(batch: BatchView, i: int, j: int)
    requires
        batch.inv(),
        0 <= i < batch.tasks.len(),
        0 <= j < batch.tasks.len(),
        i != j,
        batch.tasks[i].state == TaskState::Succeeded,
        batch.tasks[j].state == TaskState::Succeeded,
    ensures
        batch.tasks[i].completed != batch.tasks[j].completed,
        1 <= batch.tasks[i].completed <= batch.completed,
        1 <= batch.tasks[j].completed <= batch.completed,
{
}

/// At no moment do more tasks run than the pool has workers.
pub proof fn lemma_running_within_capacity(batch: BatchView)
    requires
        batch.inv(),
    ensures
        batch.running() <= batch.capacity,
        batch.running() <= batch.tasks.len(),
{
    lemma_count_bounds(batch.tasks, TaskState::Running);
}

/// Tasks start in the order of the sources: a task has left `Pending`
/// exactly when it stands before the one that starts next, so no task
/// starts before one that stands in front of it.
pub proof fn lemma_starts_in_order(batch: BatchView, i: int, j: int)
    requires
        batch.inv(),
        0 <= i <= j < batch.tasks.len(),
    ensures
        batch.tasks[i].state != TaskState::Pending <==> i < batch.next,
        batch.tasks[j].state != TaskState::Pending ==> batch.tasks[i].state != TaskState::Pending,
{
    if batch.next <= i {
        assert(batch.tasks[i] == TaskView::fresh((i + 1) as nat));
    }
    if batch.next <= j {
        assert(batch.tasks[j] == TaskView::fresh((j + 1) as nat));
    }
}

/// A batch is complete exactly when every task has been started and none
/// runs, that is when successes and failures add up to the number of tasks.
pub proof fn lemma_complete_when_drained(batch: BatchView)
    requires
        batch.inv(),
    ensures
        batch.is_complete() <==> batch.succeeded() + batch.failed() == batch.tasks.len(),
        batch.is_complete() ==> batch.next == batch.tasks.len() && batch.running() == 0,
{
    lemma_count_bounds(batch.tasks, TaskState::Running);
    if batch.is_complete() {
        if batch.next < batch.tasks.len() {
            assert(batch.tasks[batch.next as int] == TaskView::fresh((batch.next + 1) as nat));
            assert(!batch.tasks[batch.next as int].is_terminal());
        }
        assert forall|i: int| 0 <= i < batch.tasks.len() implies (#[trigger] batch.tasks[i]).state
            != TaskState::Running by {
            assert(batch.tasks[i].is_terminal());
        }
    }
    if batch.succeeded() + batch.failed() == batch.tasks.len() {
        assert(batch.next == batch.tasks.len());
        assert(batch.running() == 0);
        assert forall|i: int| 0 <= i < batch.tasks.len() implies (
        #[trigger] batch.tasks[i]).is_terminal() by {
            assert(batch.tasks[i].state != TaskState::Pending);
            assert(batch.tasks[i].state != TaskState::Running);
        }
    }
}

/// A batch cannot get stuck, whatever its capacity: while it is not
/// complete, either a task is running, whose exit is still to come, or a
/// task can be started.
pub proof fn lemma_never_stuck(batch: BatchView)
    requires
        batch.inv(),
        !batch.is_complete(),
    ensures
        batch.running() > 0 || batch.can_start(),
{
    lemma_count_bounds(batch.tasks, TaskState::Running);
    if batch.running() == 0 {
        let i = choose|i: int| 0 <= i < batch.tasks.len() && !(#[trigger] batch.tasks[i]).is_terminal();
        assert(batch.tasks[i].state != TaskState::Running);
        assert(batch.tasks[i].state == TaskState::Pending);
        if i < batch.next {
            assert(batch.tasks[i].state != TaskState::Pending);
        }
    }
}

/// A batch while it is assembled: at least one episode source, the
/// directory for the downloads, and a pool capacity of at least one.
#[derive(Debug)]
pub struct DownloadBatch {
    sources: Vec<String>,
    directory: String,
    capacity: usize,
}

impl View for DownloadBatch {
    type V = PlanView;

    closed spec fn view(&self) -> PlanView {
        PlanView {
            sources: self.sources@,
            directory: self.directory@,
            capacity: self.capacity as nat,
        }
    }
}

impl DownloadBatch {
    #[verifier::type_invariant]
    spec fn ready(self) -> bool {
        self.sources.len() >= 1 && self.capacity >= 1
    }

    /// A batch of the given sources, in that order.
    pub fn new(sources: Vec<String>, directory: String, capacity: usize) -> (r: Result<
        Self,
        BatchError,
    >)
        ensures
            sources.len() == 0 ==> r is Err && r->Err_0 == BatchError::Empty,
            sources.len() > 0 && capacity == 0 ==> r is Err && r->Err_0 == BatchError::NoWorkers,
            sources.len() > 0 && capacity > 0 ==> r is Ok && r->Ok_0@ == (PlanView {
                sources: sources@,
                directory: directory@,
                capacity: capacity as nat,
            }),
    {
        if sources.len() == 0 {
            Err(BatchError::Empty)
        } else if capacity == 0 {
            Err(BatchError::NoWorkers)
        } else {
            Ok(DownloadBatch { sources, directory, capacity })
        }
    }

    /// Number of episodes; at least one.
    pub fn len(&self) -> (r: usize)
        ensures
            r == self@.sources.len(),
            r >= 1,
    {
        proof {
            use_type_invariant(self);
        }
        self.sources.len()
    }

    /// How many tasks may run at once; at least one.
    pub fn capacity(&self) -> (r: usize)
        ensures
            r == self@.capacity,
            r >= 1,
    {
        proof {
            use_type_invariant(self);
        }
        self.capacity
    }

    /// The directory that the downloads go to.
    pub fn directory(&self) -> (r: &String)
        ensures
            r@ == self@.directory,
    {
        &self.directory
    }

    /// Where the batch stands: it is being assembled.
    pub fn phase(&self) -> (r: BatchPhase)
        ensures
            r == BatchPhase::Assembling,
    {
        BatchPhase::Assembling
    }
}

/// A dispatched batch: the state that the workers and the caller share.
#[derive(Debug)]
pub struct Orchestrator {
    sources: Vec<String>,
    directory: String,
    tasks: Vec<TaskProgress>,
    capacity: usize,
    next: usize,
    running: usize,
    failed: usize,
    counter: BatchCounter,
}

/// The records that a vector of tasks holds.
pub open spec fn task_views(tasks: Seq<TaskProgress>) -> Seq<TaskView> {
    Seq::new(tasks.len(), |i: int| tasks[i]@)
}

impl View for Orchestrator {
    type V = BatchView;

    closed spec fn view(&self) -> BatchView {
        BatchView {
            sources: self.sources@,
            directory: self.directory@,
            tasks: task_views(self.tasks@),
            capacity: self.capacity as nat,
            next: self.next as nat,
            completed: self.counter@,
        }
    }
}

impl Orchestrator {
    /// Whether the state is one that dispatch and the transitions lead to.
    pub closed spec fn wf(&self) -> bool {
        &&& self@.inv()
        &&& self.running == self@.running()
        &&& self.failed == self@.failed()
        &&& forall|i: int| 0 <= i < self.tasks.len() ==> (#[trigger] self.tasks[i]).valid()
    }

    /// Every state that dispatch and the transitions lead to satisfies the
    /// batch invariant.
    pub proof fn lemma_inv(&self)
        requires
            self.wf(),
        ensures
            self@.inv(),
    {
    }

    /// Queues one pending task per source, in the order of the sources.
    pub fn dispatch(batch: DownloadBatch) -> (r: Self)
        ensures
            r.wf(),
            r@ == BatchView::dispatched(batch@),
            r@.phase() == BatchPhase::Dispatched,
    {
        proof {
            use_type_invariant(&batch);
        }
        let DownloadBatch { sources, directory, capacity } = batch;
        let total: usize = sources.len();
        let mut tasks: Vec<TaskProgress> = Vec::new();
        let mut i: usize = 0;
        while i < total
            invariant
                i <= total,
                tasks.len() == i,
                forall|k: int|
                    0 <= k < i ==> (#[trigger] tasks[k]).valid() && tasks[k]@ == TaskView::fresh(
                        (k + 1) as nat,
                    ),
            decreases total - i,
        {
            tasks.push(TaskProgress::new(i + 1));
            i += 1;
        }
        let r = Orchestrator {
            sources,
            directory,
            tasks,
            capacity,
            next: 0,
            running: 0,
            failed: 0,
            counter: BatchCounter::new(),
        };
        proof {
            let view = r@;
            assert(view.tasks =~= BatchView::dispatched(batch@).tasks);
            assert forall|k: int| 0 <= k < view.tasks.len() implies (#[trigger] view.tasks[k]).state
                == TaskState::Pending by {}
            lemma_count_bounds(view.tasks, TaskState::Running);
            lemma_count_bounds(view.tasks, TaskState::Succeeded);
            lemma_count_bounds(view.tasks, TaskState::Failed(FailureKind::Spawn));
            lemma_count_bounds(view.tasks, TaskState::Failed(FailureKind::Exit));
            assert(!view.tasks[0].is_terminal());
        }
        r
    }

    /// Number of tasks in the batch.
    pub fn total(&self) -> (r: usize)
        requires
            self.wf(),
        ensures
            r == self@.tasks.len(),
            r >= 1,
    {
        self.tasks.len()
    }

    /// How many tasks may run at once.
    pub fn capacity(&self) -> (r: usize)
        ensures
            r == self@.capacity,
    {
        self.capacity
    }

    /// The shared count of successes.
    pub fn completed(&self) -> (r: usize)
        ensures
            r == self@.completed,
    {
        self.counter.get()
    }

    /// How many tasks have failed.
    pub fn failed(&self) -> (r: usize)
        requires
            self.wf(),
        ensures
            r == self@.failed(),
    {
        self.failed
    }

    /// How many tasks are running.
    pub fn running(&self) -> (r: usize)
        requires
            self.wf(),
        ensures
            r == self@.running(),
            r <= self@.capacity,
    {
        self.running
    }

    /// How many tasks have been started.
    pub fn started(&self) -> (r: usize)
        ensures
            r == self@.next,
    {
        self.next
    }

    /// The directory that the downloads go to.
    pub fn directory(&self) -> (r: &String)
        ensures
            r@ == self@.directory,
    {
        &self.directory
    }

    /// The source of the task at `position`.
    pub fn source(&self, position: usize) -> (r: Option<&String>)
        requires
            self.wf(),
        ensures
            position < self@.tasks.len() ==> r is Some && *r.unwrap() == self@.sources[position as int],
            position >= self@.tasks.len() ==> r is None,
    {
        if position < self.sources.len() {
            Some(&self.sources[position])
        } else {
            None
        }
    }

    /// The record of the task at `position`.
    pub fn task(&self, position: usize) -> (r: Option<&TaskProgress>)
        requires
            self.wf(),
        ensures
            position < self@.tasks.len() ==> r is Some && r.unwrap()@ == self@.tasks[position as int]
                && r.unwrap().valid(),
            position >= self@.tasks.len() ==> r is None,
    {
        if position < self.tasks.len() {
            Some(&self.tasks[position])
        } else {
            None
        }
    }

    /// The state of every task, in the order of the sources. Once the batch
    /// is complete these are the terminal outcomes.
    pub fn outcomes(&self) -> (r: Vec<TaskState>)
        requires
            self.wf(),
        ensures
            r.len() == self@.tasks.len(),
            forall|i: int| 0 <= i < r.len() ==> r[i] == self@.tasks[i].state,
    {
        let mut states: Vec<TaskState> = Vec::new();
        let mut i: usize = 0;
        while i < self.tasks.len()
            invariant
                i <= self.tasks.len(),
                states.len() == i,
                forall|k: int| 0 <= k < i ==> states[k] == self@.tasks[k].state,
            decreases self.tasks.len() - i,
        {
            states.push(self.tasks[i].state());
            i += 1;
        }
        states
    }

    /// Whether every task is terminal.
    pub fn is_complete(&self) -> (r: bool)
        requires
            self.wf(),
        ensures
            r == self@.is_complete(),
    {
        proof {
            lemma_complete_when_drained(self@);
            lemma_count_bounds(self@.tasks, TaskState::Running);
        }
        self.next == self.tasks.len() && self.running == 0
    }

    /// Where the batch stands.
    pub fn phase(&self) -> (r: BatchPhase)
        requires
            self.wf(),
        ensures
            r == self@.phase(),
            r != BatchPhase::Assembling,
    {
        if self.is_complete() {
            BatchPhase::Complete
        } else if self.next == 0 {
            BatchPhase::Dispatched
        } else {
            BatchPhase::Draining
        }
    }

    /// Starts the pending task that is first in line, if a worker is free,
    /// and returns its position. Nothing changes where no task is pending
    /// or as many tasks run as the pool has workers.
    pub fn start_next(&mut self) -> (r: Option<usize>)
        requires
            old(self).wf(),
        ensures
            final(self).wf(),
            old(self)@.can_start() ==> r == Some(old(self)@.next as usize) && final(self)@ == old(
                self,
            )@.after_start(),
            !old(self)@.can_start() ==> r is None && final(self)@ == old(self)@,
    {
        if self.next < self.tasks.len() && self.running < self.capacity {
            let position: usize = self.next;
            let ghost before = self@;
            assert(before.tasks[position as int] == TaskView::fresh((position + 1) as nat));
            let _ = self.tasks[position].start();
            self.next = position + 1;
            self.running = self.running + 1;
            proof {
                let after = self@;
                let task = before.tasks[position as int].started();
                assert(after.tasks =~= before.tasks.update(position as int, task));
                lemma_moved(before.tasks, position as int, task);
                assert forall|i: int| 0 <= i < after.next implies (#[trigger] after.tasks[i]).state
                    != TaskState::Pending by {
                    if i < position {
                        assert(before.tasks[i].state != TaskState::Pending);
                    }
                }
                assert forall|i: int| after.next <= i < after.tasks.len() implies (
                #[trigger] after.tasks[i]) == TaskView::fresh((i + 1) as nat) by {
                    assert(before.tasks[i] == TaskView::fresh((i + 1) as nat));
                }
                lemma_kept_successes(before, after, position as int);
            }
            Some(position)
        } else {
            None
        }
    }

    /// Takes in one line of output of the running task at `position`; see
    /// `TaskProgress::observe`.
    pub fn observe(&mut self, position: usize, signal: &LineSignal, percent: Option<u64>) -> (r:
        Result<(), StepError>)
        requires
            old(self).wf(),
        ensures
            final(self).wf(),
            old(self)@.is_running(position as int) ==> r is Ok && final(self)@ == old(
                self,
            )@.with_task(
                position as int,
                old(self)@.tasks[position as int].observed(
                    signal is Progress,
                    percent,
                    signal_rate(*signal),
                ),
            ),
            !old(self)@.is_running(position as int) ==> final(self)@ == old(self)@ && r == Err::<
                (),
                _,
            >(
                if position < old(self)@.tasks.len() {
                    StepError::NotRunning
                } else {
                    StepError::UnknownTask
                },
            ),
    {
        if position >= self.tasks.len() {
            return Err(StepError::UnknownTask);
        }
        let ghost before = self@;
        let r = self.tasks[position].observe(signal, percent);
        proof {
            let after = self@;
            if r is Ok {
                let task = after.tasks[position as int];
                assert(after.tasks =~= before.tasks.update(position as int, task));
                lemma_moved(before.tasks, position as int, task);
                self.tasks[position as int].lemma_percent_in_range();
                if position >= before.next {
                    assert(before.tasks[position as int] == TaskView::fresh((position + 1) as nat));
                }
                assert forall|i: int| 0 <= i < after.next implies (#[trigger] after.tasks[i]).state
                    != TaskState::Pending by {
                    assert(before.tasks[i].state != TaskState::Pending);
                }
                assert forall|i: int| after.next <= i < after.tasks.len() implies (
                #[trigger] after.tasks[i]) == TaskView::fresh((i + 1) as nat) by {
                    assert(before.tasks[i] == TaskView::fresh((i + 1) as nat));
                }
                lemma_kept_successes(before, after, position as int);
            } else {
                assert(after.tasks =~= before.tasks);
            }
        }
        r
    }

    /// Ends the running task at `position`, whose downloader could not be
    /// started; `detail` is what the system said. The other tasks go on.
    pub fn fail_spawn(&mut self, position: usize, detail: String) -> (r: Result<(), StepError>)
        requires
            old(self).wf(),
        ensures
            final(self).wf(),
            old(self)@.is_running(position as int) ==> r is Ok && final(self)@ == old(
                self,
            )@.with_task(
                position as int,
                old(self)@.tasks[position as int].spawn_failed(detail@),
            ),
            !old(self)@.is_running(position as int) ==> final(self)@ == old(self)@ && r == Err::<
                (),
                _,
            >(
                if position < old(self)@.tasks.len() {
                    StepError::NotRunning
                } else {
                    StepError::UnknownTask
                },
            ),
    {
        if position >= self.tasks.len() {
            return Err(StepError::UnknownTask);
        }
        let ghost before = self@;
        proof {
            lemma_count_bounds(before.tasks, TaskState::Running);
            lemma_count_bounds(before.tasks, TaskState::Failed(FailureKind::Spawn));
            lemma_count_bounds(before.tasks, TaskState::Failed(FailureKind::Exit));
        }
        let r = self.tasks[position].fail_spawn(detail);
        if r.is_ok() {
            self.running = self.running - 1;
            self.failed = self.failed + 1;
        }
        proof {
            let after = self@;
            if r is Ok {
                let task = after.tasks[position as int];
                assert(after.tasks =~= before.tasks.update(position as int, task));
                lemma_moved(before.tasks, position as int, task);
                if position >= before.next {
                    assert(before.tasks[position as int] == TaskView::fresh((position + 1) as nat));
                }
                assert forall|i: int| 0 <= i < after.next implies (#[trigger] after.tasks[i]).state
                    != TaskState::Pending by {
                    assert(before.tasks[i].state != TaskState::Pending);
                }
                assert forall|i: int| after.next <= i < after.tasks.len() implies (
                #[trigger] after.tasks[i]) == TaskView::fresh((i + 1) as nat) by {
                    assert(before.tasks[i] == TaskView::fresh((i + 1) as nat));
                }
                lemma_kept_successes(before, after, position as int);
            } else {
                assert(after.tasks =~= before.tasks);
            }
        }
        r
    }

    /// Ends the running task at `position`, whose downloader has exited. A
    /// success is counted once in the shared counter and the count read
    /// then is kept in the task's record; any other exit fails the task.
    /// The other tasks go on either way.
    pub fn exit(&mut self, position: usize, success: bool) -> (r: Result<(), StepError>)
        requires
            old(self).wf(),
        ensures
            final(self).wf(),
            old(self)@.is_running(position as int) ==> r is Ok && final(self)@ == old(
                self,
            )@.after_exit(position as int, success),
            !old(self)@.is_running(position as int) ==> final(self)@ == old(self)@ && r == Err::<
                (),
                _,
            >(
                if position < old(self)@.tasks.len() {
                    StepError::NotRunning
                } else {
                    StepError::UnknownTask
                },
            ),
    {
        if position >= self.tasks.len() {
            return Err(StepError::UnknownTask);
        }
        let ghost before = self@;
        proof {
            lemma_count_bounds(before.tasks, TaskState::Running);
            lemma_count_bounds(before.tasks, TaskState::Succeeded);
            lemma_count_bounds(before.tasks, TaskState::Failed(FailureKind::Spawn));
            lemma_count_bounds(before.tasks, TaskState::Failed(FailureKind::Exit));
            if before.tasks[position as int].state == TaskState::Running {
                lemma_count_update(
                    before.tasks,
                    position as int,
                    before.tasks[position as int].exited(true, before.completed),
                    TaskState::Succeeded,
                );
                lemma_count_bounds(
                    before.tasks.update(
                        position as int,
                        before.tasks[position as int].exited(true, before.completed),
                    ),
                    TaskState::Succeeded,
                );
            }
        }
        if self.tasks[position].state() != TaskState::Running {
            return Err(StepError::NotRunning);
        }
        let r = self.tasks[position].exit(success, &mut self.counter);
        self.running = self.running - 1;
        if !success {
            self.failed = self.failed + 1;
        }
        proof {
            let after = self@;
            let task = after.tasks[position as int];
            assert(after.tasks =~= before.tasks.update(position as int, task));
            lemma_moved(before.tasks, position as int, task);
            if position >= before.next {
                assert(before.tasks[position as int] == TaskView::fresh((position + 1) as nat));
            }
            assert forall|i: int| 0 <= i < after.next implies (#[trigger] after.tasks[i]).state
                != TaskState::Pending by {
                assert(before.tasks[i].state != TaskState::Pending);
            }
            assert forall|i: int| after.next <= i < after.tasks.len() implies (
            #[trigger] after.tasks[i]) == TaskView::fresh((i + 1) as nat) by {
                assert(before.tasks[i] == TaskView::fresh((i + 1) as nat));
            }
            assert forall|i: int|
                0 <= i < after.tasks.len() && (#[trigger] after.tasks[i]).state
                    == TaskState::Succeeded implies 1 <= after.tasks[i].completed
                <= after.completed by {
                if i != position {
                    assert(before.tasks[i].state == TaskState::Succeeded);
                }
            }
            assert forall|i: int, j: int|
                0 <= i < after.tasks.len() && 0 <= j < after.tasks.len() && i != j && (
                #[trigger] after.tasks[i]).state == TaskState::Succeeded && (
                #[trigger] after.tasks[j]).state == TaskState::Succeeded implies after.tasks[i].completed
                != after.tasks[j].completed by {
                if i != position {
                    assert(before.tasks[i].state == TaskState::Succeeded);
                }
                if j != position {
                    assert(before.tasks[j].state == TaskState::Succeeded);
                }
            }
        }
        r
    }
}

/// Whether replacing the record at `i` by `task` moves one unit of the
/// count of `state` from the old record's state to the new one's.
spec fn moves(tasks: Seq<TaskView>, i: int, task: TaskView, state: TaskState) -> bool {
    count_state(tasks.update(i, task), state) + unit(tasks[i].state == state) == count_state(
        tasks,
        state,
    ) + unit(task.state == state)
}

/// The counts of all four states after one record was replaced.
proof fn lemma_moved(tasks: Seq<TaskView>, i: int, task: TaskView)
    requires
        0 <= i < tasks.len(),
    ensures
        moves(tasks, i, task, TaskState::Running),
        moves(tasks, i, task, TaskState::Succeeded),
        moves(tasks, i, task, TaskState::Failed(FailureKind::Spawn)),
        moves(tasks, i, task, TaskState::Failed(FailureKind::Exit)),
{
    lemma_count_update(tasks, i, task, TaskState::Running);
    lemma_count_update(tasks, i, task, TaskState::Succeeded);
    lemma_count_update(tasks, i, task, TaskState::Failed(FailureKind::Spawn));
    lemma_count_update(tasks, i, task, TaskState::Failed(FailureKind::Exit));
}

/// A step that makes no task succeed and leaves the counter alone keeps
/// what the invariant says of the counts that the succeeded tasks read.
proof fn lemma_kept_successes(before: BatchView, after: BatchView, position: int)
    requires
        before.inv(),
        0 <= position < before.tasks.len(),
        after.tasks.len() == before.tasks.len(),
        after.completed == before.completed,
        forall|i: int|
            0 <= i < before.tasks.len() && i != position ==> after.tasks[i] == before.tasks[i],
        after.tasks[position].state != TaskState::Succeeded,
    ensures
        forall|i: int|
            0 <= i < after.tasks.len() && (#[trigger] after.tasks[i]).state == TaskState::Succeeded
                ==> 1 <= after.tasks[i].completed <= after.completed,
        forall|i: int, j: int|
            0 <= i < after.tasks.len() && 0 <= j < after.tasks.len() && i != j && (
            #[trigger] after.tasks[i]).state == TaskState::Succeeded && (
            #[trigger] after.tasks[j]).state == TaskState::Succeeded ==> after.tasks[i].completed
                != after.tasks[j].completed,
{
    assert forall|i: int|
        0 <= i < after.tasks.len() && (#[trigger] after.tasks[i]).state
            == TaskState::Succeeded implies 1 <= after.tasks[i].completed <= after.completed by {
        assert(before.tasks[i].state == TaskState::Succeeded);
    }
    assert forall|i: int, j: int|
        0 <= i < after.tasks.len() && 0 <= j < after.tasks.len() && i != j && (
        #[trigger] after.tasks[i]).state == TaskState::Succeeded && (
        #[trigger] after.tasks[j]).state == TaskState::Succeeded implies after.tasks[i].completed
        != after.tasks[j].completed by {
        assert(before.tasks[i].state == TaskState::Succeeded);
        assert(before.tasks[j].state == TaskState::Succeeded);
    }
}

} // verus!

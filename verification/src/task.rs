//! One download task: its progress record and the transitions that the
//! events of its downloader process cause.

use crate::progress::LineSignal;
use vstd::prelude::*;
use vstd::string::StringExecFns;

verus! {

/// Why a task failed.
#[derive(Debug, Clone, Copy, PartialEq, Eq, Structural)]
pub enum FailureKind {
    /// The downloader could not be started.
    Spawn,
    /// The downloader ran and did not exit with success.
    Exit,
}

/// Where a task stands. `Succeeded` and `Failed` are terminal.
#[derive(Debug, Clone, Copy, PartialEq, Eq, Structural)]
pub enum TaskState {
    Pending,
    Running,
    Succeeded,
    Failed(FailureKind),
}

/// Why a transition was refused.
#[derive(Debug, Clone, Copy, PartialEq, Eq, Structural)]
pub enum StepError {
    /// The batch has no task at that position.
    UnknownTask,
    /// The task is not running, so it takes no event.
    NotRunning,
    /// The task has already been started.
    NotPending,
}

/// The shared count of the tasks that have succeeded. It only grows.
#[derive(Debug)]
pub struct BatchCounter {
    value: usize,
}

impl View for BatchCounter {
    type V = nat;

    closed spec fn view(&self) -> nat {
        self.value as nat
    }
}

impl BatchCounter {
    /// A counter at zero.
    pub fn new() -> (r: Self)
        ensures
            r@ == 0,
    {
        BatchCounter { value: 0 }
    }

    /// The current count.
    pub fn get(&self) -> (r: usize)
        ensures
            r == self@,
    {
        self.value
    }

    /// Counts one more success and returns the count that includes it.
    pub fn increment(&mut self) -> (r: usize)
        requires
            old(self)@ < usize::MAX,
        ensures
            final(self)@ == old(self)@ + 1,
            r == final(self)@,
    {
        self.value = self.value + 1;
        self.value
    }
}

/// The largest completion value a task shows.
pub const FULL_PERCENT: u8 = 100;

/// A reported completion value, held to at most `FULL_PERCENT`.
pub open spec fn clamp_percent(value: u64) -> nat {
    if value > FULL_PERCENT {
        FULL_PERCENT as nat
    } else {
        value as nat
    }
}

/// What a task's record holds.
pub struct TaskView {
    /// Position of the task in its batch, counted from one.
    pub index: nat,
    /// Latest completion value seen, at most `FULL_PERCENT`.
    pub percent: nat,
    /// Latest transfer rate seen.
    pub rate: Option<Seq<char>>,
    pub state: TaskState,
    /// The count of successes read when the task succeeded, its own
    /// included; zero before that.
    pub completed: nat,
    /// What the system said when the downloader could not be started.
    pub detail: Option<Seq<char>>,
}

impl TaskView {
    /// Whether the task will change no more.
    pub open spec fn is_terminal(self) -> bool {
        self.state == TaskState::Succeeded || self.state is Failed
    }

    /// The record as a task starts out.
    pub open spec fn fresh(index: nat) -> TaskView {
        TaskView {
            index,
            percent: 0,
            rate: None,
            state: TaskState::Pending,
            completed: 0,
            detail: None,
        }
    }

    /// The record after the task was started.
    pub open spec fn started(self) -> TaskView {
        TaskView { state: TaskState::Running, ..self }
    }

    /// The record after a line of output was read, of which `signal_rate` is
    /// the rate and `percent` the number that its percentage reads as;
    /// `bears` says whether the line was a progress line at all.
    pub open spec fn observed(
        self,
        bears: bool,
        percent: Option<u64>,
        signal_rate: Option<Seq<char>>,
    ) -> TaskView {
        if bears {
            TaskView {
                percent: match percent {
                    Some(value) => clamp_percent(value),
                    None => self.percent,
                },
                rate: match signal_rate {
                    Some(rate) => Some(rate),
                    None => self.rate,
                },
                ..self
            }
        } else {
            self
        }
    }

    /// The record after the downloader could not be started.
    pub open spec fn spawn_failed(self, detail: Seq<char>) -> TaskView {
        TaskView { state: TaskState::Failed(FailureKind::Spawn), detail: Some(detail), ..self }
    }

    /// The record after the downloader exited, where `count` is the count of
    /// successes before that.
    pub open spec fn exited(self, success: bool, count: nat) -> TaskView {
        if success {
            TaskView { state: TaskState::Succeeded, completed: count + 1, ..self }
        } else {
            TaskView { state: TaskState::Failed(FailureKind::Exit), ..self }
        }
    }

    /// The reason of a failure, as it is reported.
    pub open spec fn reason(self) -> Option<Seq<char>> {
        match self.state {
            TaskState::Failed(FailureKind::Spawn) => Some(
                "spawn error: "@ + match self.detail {
                    Some(detail) => detail,
                    None => Seq::empty(),
                },
            ),
            TaskState::Failed(FailureKind::Exit) => Some("exit failure"@),
            _ => None,
        }
    }
}

/// Name of the downloader program.
pub fn downloader_program() -> (r: String)
    ensures
        r@ == "yt-dlp"@,
{
    String::from_str("yt-dlp")
}

/// The arguments with which the downloader is run for one episode: one
/// progress line per update, then the source.
pub fn downloader_arguments(source: &str) -> (r: Vec<String>)
    ensures
        r.len() == 3,
        r[0]@ == "--newline"@,
        r[1]@ == "--progress"@,
        r[2]@ == source@,
{
    let mut arguments: Vec<String> = Vec::new();
    arguments.push(String::from_str("--newline"));
    arguments.push(String::from_str("--progress"));
    arguments.push(String::from_str(source));
    arguments
}

/// The record of one task.
#[derive(Debug)]
pub struct TaskProgress {
    index: usize,
    percent: u8,
    rate: Option<String>,
    state: TaskState,
    completed: usize,
    detail: Option<String>,
}

/// The text that an optional string holds.
pub open spec fn text_view(text: Option<String>) -> Option<Seq<char>> {
    match text {
        Some(s) => Some(s@),
        None => None,
    }
}

/// What a line's signal says of the rate.
pub open spec fn signal_rate(signal: LineSignal) -> Option<Seq<char>> {
    match signal {
        LineSignal::Progress(p) => text_view(p.rate),
        LineSignal::NoSignal => None,
    }
}

impl View for TaskProgress {
    type V = TaskView;

    closed spec fn view(&self) -> TaskView {
        TaskView {
            index: self.index as nat,
            percent: self.percent as nat,
            rate: text_view(self.rate),
            state: self.state,
            completed: self.completed as nat,
            detail: text_view(self.detail),
        }
    }
}

impl TaskProgress {
    /// Whether the completion value is in range. Every record that this
    /// module hands out is valid.
    pub closed spec fn valid(&self) -> bool {
        self.percent <= FULL_PERCENT
    }

    /// The completion value of a valid record is at most `FULL_PERCENT`.
    pub proof fn lemma_percent_in_range(&self)
        requires
            self.valid(),
        ensures
            self@.percent <= FULL_PERCENT,
    {
    }

    /// A pending task with the given position, counted from one.
    pub fn new(index: usize) -> (r: Self)
        ensures
            r@ == TaskView::fresh(index as nat),
            r.valid(),
    {
        TaskProgress {
            index,
            percent: 0,
            rate: None,
            state: TaskState::Pending,
            completed: 0,
            detail: None,
        }
    }

    /// Position of the task in its batch, counted from one.
    pub fn index(&self) -> (r: usize)
        ensures
            r == self@.index,
    {
        self.index
    }

    /// Latest completion value seen.
    pub fn percent(&self) -> (r: u8)
        ensures
            r == self@.percent,
    {
        self.percent
    }

    /// Latest transfer rate seen.
    pub fn rate(&self) -> (r: &Option<String>)
        ensures
            text_view(*r) == self@.rate,
    {
        &self.rate
    }

    /// Where the task stands.
    pub fn state(&self) -> (r: TaskState)
        ensures
            r == self@.state,
    {
        self.state
    }

    /// The count of successes read when the task succeeded.
    pub fn completed(&self) -> (r: usize)
        ensures
            r == self@.completed,
    {
        self.completed
    }

    /// Whether the task will change no more.
    pub fn is_terminal(&self) -> (r: bool)
        ensures
            r == self@.is_terminal(),
    {
        match self.state {
            TaskState::Succeeded => true,
            TaskState::Failed(_) => true,
            _ => false,
        }
    }

    /// The reason of a failure: `spawn error: ` and what the system said, or
    /// `exit failure`; nothing for a task that has not failed.
    pub fn reason(&self) -> (r: Option<String>)
        ensures
            text_view(r) == self@.reason(),
    {
        match self.state {
            TaskState::Failed(FailureKind::Spawn) => {
                let mut text = String::from_str("spawn error: ");
                match &self.detail {
                    Some(detail) => {
                        text.append(detail.as_str());
                    },
                    None => {
                        assert(text@ + Seq::<char>::empty() == text@);
                    },
                }
                Some(text)
            },
            TaskState::Failed(FailureKind::Exit) => Some(String::from_str("exit failure")),
            _ => None,
        }
    }

    /// Starts a pending task.
    pub fn start(&mut self) -> (r: Result<(), StepError>)
        requires
            old(self).valid(),
        ensures
            final(self).valid(),
            old(self)@.state == TaskState::Pending ==> r is Ok && final(self)@ == old(
                self,
            )@.started(),
            old(self)@.state != TaskState::Pending ==> r == Err::<(), _>(StepError::NotPending)
                && final(self)@ == old(self)@,
    {
        if self.state == TaskState::Pending {
            self.state = TaskState::Running;
            Ok(())
        } else {
            Err(StepError::NotPending)
        }
    }

    /// Takes in one line of output of a running task: `signal` is what the
    /// line says, `percent` the number that its percentage reads as, cut
    /// down to a whole number, or nothing where it is no number.
    ///
    /// A line that is no progress line changes nothing. Of a progress line
    /// the number, held to at most `FULL_PERCENT`, becomes the completion
    /// value, and the rate, where there is one, the latest rate.
    pub fn observe(&mut self, signal: &LineSignal, percent: Option<u64>) -> (r: Result<
        (),
        StepError,
    >)
        requires
            old(self).valid(),
        ensures
            final(self).valid(),
            old(self)@.state == TaskState::Running ==> r is Ok && final(self)@ == old(
                self,
            )@.observed(signal is Progress, percent, signal_rate(*signal)),
            old(self)@.state != TaskState::Running ==> r == Err::<(), _>(StepError::NotRunning)
                && final(self)@ == old(self)@,
    {
        if self.state != TaskState::Running {
            return Err(StepError::NotRunning);
        }
        match signal {
            LineSignal::NoSignal => {},
            LineSignal::Progress(progress) => {
                match percent {
                    Some(value) => {
                        if value > 100 {
                            self.percent = FULL_PERCENT;
                        } else {
                            self.percent = value as u8;
                        }
                    },
                    None => {},
                }
                match &progress.rate {
                    Some(rate) => {
                        self.rate = Some(rate.clone());
                    },
                    None => {},
                }
            },
        }
        Ok(())
    }

    /// Ends a running task whose downloader could not be started; `detail`
    /// is what the system said.
    pub fn fail_spawn(&mut self, detail: String) -> (r: Result<(), StepError>)
        requires
            old(self).valid(),
        ensures
            final(self).valid(),
            old(self)@.state == TaskState::Running ==> r is Ok && final(self)@ == old(
                self,
            )@.spawn_failed(detail@),
            old(self)@.state != TaskState::Running ==> r == Err::<(), _>(StepError::NotRunning)
                && final(self)@ == old(self)@,
    {
        if self.state != TaskState::Running {
            return Err(StepError::NotRunning);
        }
        self.state = TaskState::Failed(FailureKind::Spawn);
        self.detail = Some(detail);
        Ok(())
    }

    /// Ends a running task whose downloader has exited. A success is
    /// counted once in `counter`, and the count read then is kept in the
    /// record. Any other exit fails the task and leaves the counter alone.
    pub fn exit(&mut self, success: bool, counter: &mut BatchCounter) -> (r: Result<
        (),
        StepError,
    >)
        requires
            old(self).valid(),
            old(counter)@ < usize::MAX,
        ensures
            final(self).valid(),
            old(self)@.state == TaskState::Running ==> {
                &&& r is Ok
                &&& final(self)@ == old(self)@.exited(success, old(counter)@)
                &&& final(counter)@ == old(counter)@ + if success {
                    1nat
                } else {
                    0nat
                }
            },
            old(self)@.state != TaskState::Running ==> {
                &&& r == Err::<(), _>(StepError::NotRunning)
                &&& final(self)@ == old(self)@
                &&& final(counter)@ == old(counter)@
            },
    {
        if self.state != TaskState::Running {
            return Err(StepError::NotRunning);
        }
        if success {
            self.completed = counter.increment();
            self.state = TaskState::Succeeded;
        } else {
            self.state = TaskState::Failed(FailureKind::Exit);
        }
        Ok(())
    }
}

} // verus!

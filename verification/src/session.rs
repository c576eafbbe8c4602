//! A run as a sequence of steps: each task is checked, executed and recorded in
//! turn, and every step says what has to be done next.

use crate::catalog::{clone_tasks, ExecutionPlan, TaskDefinition, TaskModel};
use crate::failure::{Failure, FailureModel};
use crate::paths::PathStyle;
use crate::runner;
use crate::runner::{
    build_command, classify_exit_code, clone_outcomes, evaluate_preflight, exit_console,
    preflight_console, task_heading, CommandModel, CommandSpec, ConsoleLine, ConsoleModel,
    EventModel, OutcomeModel, OutcomeStatus, RunOptions, RunSummary, RunnerEvent, StreamKind,
    SummaryModel, Surroundings, SurroundingsModel, TaskOutcome,
};
use crate::text::{concat2, Text};
use vstd::prelude::*;

verus! {

/// Takes the events of a run as they happen.
pub trait EventSink {
    /// The events taken so far.
    spec fn received(&self) -> Seq<EventModel>;

    /// Takes one event.
    fn handle(&mut self, event: RunnerEvent)
        ensures
            final(self).received() == old(self).received().push(event@),
    ;
}

/// A sink that keeps every event.
#[derive(Debug)]
pub struct EventLog {
    pub events: Vec<RunnerEvent>,
}

impl EventLog {
    pub fn new() -> (res: Self)
        ensures
            res.received() == Seq::<EventModel>::empty(),
    {
        let res = EventLog { events: Vec::new() };
        assert(res.received() =~= Seq::<EventModel>::empty());
        res
    }
}

impl EventSink for EventLog {
    open spec fn received(&self) -> Seq<EventModel> {
        self.events.deep_view()
    }

    fn handle(&mut self, event: RunnerEvent) {
        let ghost content = event@;
        self.events.push(event);
        assert(self.received() =~= old(self).received().push(content));
    }
}

/// What a run is waiting for.
#[derive(Debug, PartialEq, Eq)]
pub enum RunPhase {
    /// The surroundings of the current task.
    Checking,
    /// Output of this process, or its end.
    Executing(CommandSpec),
    /// Nothing: every task has an outcome.
    Finished,
    /// Nothing: the run broke off.
    Aborted(Failure),
}

/// The content of a [`RunPhase`].
#[verifier::ext_equal]
pub enum PhaseModel {
    Checking,
    Executing(CommandModel),
    Finished,
    Aborted(FailureModel),
}

impl View for RunPhase {
    type V = PhaseModel;

    open spec fn view(&self) -> PhaseModel {
        match self {
            RunPhase::Checking => PhaseModel::Checking,
            RunPhase::Executing(command) => PhaseModel::Executing(command@),
            RunPhase::Finished => PhaseModel::Finished,
            RunPhase::Aborted(failure) => PhaseModel::Aborted(failure@),
        }
    }
}

/// What was found or happened outside.
#[derive(Debug, PartialEq, Eq)]
pub enum RunInput {
    /// What was found on the machine for the current task.
    Found(Surroundings),
    /// A line of the current process.
    Output(StreamKind, String),
    /// The current process ended, by this exit code if it has one, or could not
    /// be run.
    Exited(Result<Option<i32>, Failure>),
}

/// The content of a [`RunInput`].
#[verifier::ext_equal]
pub enum InputModel {
    Found(SurroundingsModel),
    Output(StreamKind, Text),
    Exited(Result<Option<i32>, FailureModel>),
}

impl View for RunInput {
    type V = InputModel;

    open spec fn view(&self) -> InputModel {
        match self {
            RunInput::Found(around) => InputModel::Found(around@),
            RunInput::Output(stream, line) => InputModel::Output(*stream, line@),
            RunInput::Exited(Ok(code)) => InputModel::Exited(Ok(*code)),
            RunInput::Exited(Err(failure)) => InputModel::Exited(Err(failure@)),
        }
    }
}

/// A run: the tasks, the outcomes of those that are done, and what it waits
/// for. The current task is the first without an outcome.
#[verifier::ext_equal]
pub struct RunModel {
    pub style: PathStyle,
    pub root: Text,
    pub options: RunOptions,
    pub tasks: Seq<TaskModel>,
    pub outcomes: Seq<OutcomeModel>,
    pub phase: PhaseModel,
}

/// A task with its outcome.
pub open spec fn outcome_of(task: TaskModel, status: OutcomeStatus) -> OutcomeModel {
    OutcomeModel { id: task.id, label: task.label, status }
}

pub open spec fn started(task: TaskModel) -> EventModel {
    EventModel::TaskStarted { task_id: task.id, label: task.label }
}

pub open spec fn output(task: TaskModel, stream: StreamKind, line: Text) -> EventModel {
    EventModel::OutputLine { task_id: task.id, stream, line }
}

pub open spec fn finished(task: TaskModel, status: OutcomeStatus) -> EventModel {
    EventModel::TaskFinished { task_id: task.id, label: task.label, status }
}

/// What holds of every run: outcomes belong to the tasks in order, and the run
/// is finished exactly when every task has one.
pub open spec fn run_wf(m: RunModel) -> bool {
    &&& m.outcomes.len() <= m.tasks.len()
    &&& m.phase is Finished <==> m.outcomes.len() == m.tasks.len()
    &&& forall|i: int|
        0 <= i < m.outcomes.len() ==> (#[trigger] m.outcomes[i]) == outcome_of(
            m.tasks[i],
            m.outcomes[i].status,
        )
}

impl RunModel {
    /// The current task.
    pub open spec fn current(self) -> TaskModel {
        self.tasks[self.outcomes.len() as int]
    }

    /// Turns to the current task, if there is one.
    pub open spec fn next_task(self) -> (RunModel, Seq<EventModel>) {
        if self.outcomes.len() < self.tasks.len() {
            (RunModel { phase: PhaseModel::Checking, ..self }, seq![started(self.current())])
        } else {
            (RunModel { phase: PhaseModel::Finished, ..self }, Seq::empty())
        }
    }

    /// Records how the current task ended and turns to the next.
    pub open spec fn settle(self, status: OutcomeStatus) -> (RunModel, Seq<EventModel>) {
        let task = self.current();
        let (after, events) = RunModel {
            outcomes: self.outcomes.push(outcome_of(task, status)),
            ..self
        }.next_task();
        (after, seq![finished(task, status)] + events)
    }

    /// Breaks the run off.
    pub open spec fn abort(self, failure: FailureModel) -> RunModel {
        RunModel { phase: PhaseModel::Aborted(failure), ..self }
    }

    /// Takes note of what was found or happened. The current task is settled
    /// without being executed where its preflight report gives a status; what
    /// the run does not wait for changes nothing.
    pub open spec fn resume(self, input: InputModel) -> (RunModel, Seq<EventModel>) {
        match (self.phase, input) {
            (PhaseModel::Checking, InputModel::Found(around)) => {
                let task = self.current();
                match runner::preflight_outcome(task, around) {
                    Err(failure) => (self.abort(failure), Seq::empty()),
                    Ok(report) => {
                        let lines = report.messages.map_values(
                            |line: Text| output(task, StreamKind::Stderr, line),
                        );
                        match report.status {
                            Some(status) => {
                                let (after, events) = self.settle(status);
                                (after, lines + events)
                            },
                            None => (
                                RunModel {
                                    phase: PhaseModel::Executing(
                                        runner::task_command(
                                            self.style,
                                            task,
                                            self.root,
                                            self.options,
                                        ),
                                    ),
                                    ..self
                                },
                                lines,
                            ),
                        }
                    },
                }
            },
            (PhaseModel::Executing(_), InputModel::Output(stream, line)) => (
                self,
                seq![output(self.current(), stream, line)],
            ),
            (PhaseModel::Executing(_), InputModel::Exited(Ok(code))) => self.settle(
                runner::exit_status(
                    match code {
                        Some(code) => code as int,
                        None => 1,
                    },
                ),
            ),
            (PhaseModel::Executing(_), InputModel::Exited(Err(failure))) => (
                self.abort(failure),
                Seq::empty(),
            ),
            _ => (self, Seq::empty()),
        }
    }

    /// What a run on the terminal shows besides the output of its processes when
    /// it takes note of `input`: the heading of a task and its preflight report,
    /// or how its process ended.
    pub open spec fn console(self, input: InputModel) -> Seq<ConsoleModel> {
        match (self.phase, input) {
            (PhaseModel::Checking, InputModel::Found(around)) => match runner::preflight_outcome(
                self.current(),
                around,
            ) {
                Err(_) => runner::heading_lines(self.current().label),
                Ok(report) => runner::heading_lines(self.current().label)
                    + runner::preflight_lines(self.current().label, report),
            },
            (PhaseModel::Executing(_), InputModel::Exited(Ok(code))) => runner::exit_lines(
                self.current().label,
                match code {
                    Some(code) => code as int,
                    None => 1,
                },
            ),
            _ => Seq::empty(),
        }
    }

    /// The result of a run that is over.
    pub open spec fn result(self) -> Option<Result<SummaryModel, FailureModel>> {
        match self.phase {
            PhaseModel::Finished => Some(Ok(runner::summary_of(self.outcomes))),
            PhaseModel::Aborted(failure) => Some(Err(failure)),
            _ => None,
        }
    }
}

/// A run of these tasks before its first step.
pub open spec fn fresh_run(
    style: PathStyle,
    root: Text,
    tasks: Seq<TaskModel>,
    options: RunOptions,
) -> RunModel {
    RunModel { style, root, options, tasks, outcomes: Seq::empty(), phase: PhaseModel::Checking }
}

/// A run in progress.
#[derive(Debug)]
pub struct RunSession {
    style: PathStyle,
    root: String,
    options: RunOptions,
    tasks: Vec<TaskDefinition>,
    outcomes: Vec<TaskOutcome>,
    ok_count: usize,
    warn_count: usize,
    fail_count: usize,
    phase: RunPhase,
}

impl View for RunSession {
    type V = RunModel;

    closed spec fn view(&self) -> RunModel {
        RunModel {
            style: self.style,
            root: self.root@,
            options: self.options,
            tasks: self.tasks.deep_view(),
            outcomes: self.outcomes.deep_view(),
            phase: self.phase@,
        }
    }
}

/// Runs the tasks of plans in one root directory.
#[derive(Debug)]
pub struct Runner {
    style: PathStyle,
    root: String,
}

impl View for Runner {
    type V = (PathStyle, Text);

    closed spec fn view(&self) -> (PathStyle, Text) {
        (self.style, self.root@)
    }
}

impl Runner {
    /// A runner in `root`, on a system with paths of this style.
    pub fn new(style: PathStyle, root: String) -> (res: Self)
        ensures
            res@ == (style, root@),
    {
        Runner { style, root }
    }

    /// Starts a run of `plan`: the first task is announced to `sink`, and the
    /// run waits for its surroundings.
    pub fn run_with_events<S: EventSink>(
        &self,
        plan: &ExecutionPlan,
        options: &RunOptions,
        sink: &mut S,
    ) -> (res: RunSession)
        ensures
            res.wf(),
            run_wf(res@),
            res@ == fresh_run(self@.0, self@.1, plan@, *options).next_task().0,
            final(sink).received() == old(sink).received() + fresh_run(
                self@.0,
                self@.1,
                plan@,
                *options,
            ).next_task().1,
    {
        let mut session = RunSession {
            style: self.style,
            root: self.root.clone(),
            options: *options,
            tasks: clone_tasks(&plan.tasks),
            outcomes: Vec::new(),
            ok_count: 0,
            warn_count: 0,
            fail_count: 0,
            phase: RunPhase::Checking,
        };
        assert(session.outcomes.deep_view() =~= Seq::empty());
        session.turn_to_next(sink);
        session
    }
}

impl RunSession {
    /// The run is consistent.
    pub closed spec fn wf(&self) -> bool {
        &&& run_wf(self@)
        &&& self.counted()
    }

    /// The counts agree with the outcomes.
    closed spec fn counted(&self) -> bool {
        let outcomes = self.outcomes.deep_view();
        &&& self.ok_count == runner::count_status(outcomes, OutcomeStatus::Success)
        &&& self.warn_count == runner::count_status(outcomes, OutcomeStatus::Warn)
        &&& self.fail_count == runner::count_status(outcomes, OutcomeStatus::Fail)
    }

    fn turn_to_next<S: EventSink>(&mut self, sink: &mut S)
        requires
            old(self).counted(),
            old(self)@.outcomes.len() <= old(self)@.tasks.len(),
        ensures
            final(self).counted(),
            final(self)@ == old(self)@.next_task().0,
            final(sink).received() == old(sink).received() + old(self)@.next_task().1,
    {
        if self.outcomes.len() < self.tasks.len() {
            self.phase = RunPhase::Checking;
            let task = &self.tasks[self.outcomes.len()];
            sink.handle(
                RunnerEvent::TaskStarted { task_id: task.id.clone(), label: task.label.clone() },
            );
        } else {
            self.phase = RunPhase::Finished;
        }
        assert(sink.received() =~= old(sink).received() + old(self)@.next_task().1);
    }

    fn settle<S: EventSink>(&mut self, status: OutcomeStatus, sink: &mut S)
        requires
            old(self).wf(),
            old(self)@.outcomes.len() < old(self)@.tasks.len(),
        ensures
            final(self).wf(),
            final(self)@ == old(self)@.settle(status).0,
            final(sink).received() == old(sink).received() + old(self)@.settle(status).1,
    {
        let total: usize = self.tasks.len();
        proof {
            runner::summary_counts_every_outcome(self.outcomes.deep_view());
            assert(self.outcomes.deep_view().len() < total);
        }
        match status {
            OutcomeStatus::Success => {
                self.ok_count = self.ok_count + 1;
            },
            OutcomeStatus::Warn => {
                self.warn_count = self.warn_count + 1;
            },
            OutcomeStatus::Fail => {
                self.fail_count = self.fail_count + 1;
            },
        }
        let task = &self.tasks[self.outcomes.len()];
        let id = task.id.clone();
        let label = task.label.clone();
        sink.handle(
            RunnerEvent::TaskFinished { task_id: id.clone(), label: label.clone(), status },
        );
        let ghost before = self.outcomes.deep_view();
        let ghost done = outcome_of(old(self)@.current(), status);
        self.outcomes.push(TaskOutcome { id, label, status });
        proof {
            assert(self.outcomes.deep_view() =~= before.push(done));
            assert(before.push(done).drop_last() =~= before);
        }
        self.turn_to_next(sink);
        assert(sink.received() =~= old(sink).received() + old(self)@.settle(status).1);
    }

    /// What the run waits for.
    pub fn phase(&self) -> (res: &RunPhase)
        ensures
            res@ == self@.phase,
    {
        &self.phase
    }

    /// The task that the run is at, until it is over.
    pub fn current_task(&self) -> (res: Option<&TaskDefinition>)
        requires
            self.wf(),
        ensures
            res.deep_view() == (if self@.phase is Checking || self@.phase is Executing {
                Some(self@.current())
            } else {
                None
            }),
    {
        match &self.phase {
            RunPhase::Checking => Some(&self.tasks[self.outcomes.len()]),
            RunPhase::Executing(_) => Some(&self.tasks[self.outcomes.len()]),
            _ => None,
        }
    }

    /// Takes note of what was found or happened, and hands the events that
    /// follow from it to `sink`.
    pub fn resume<S: EventSink>(&mut self, input: RunInput, sink: &mut S)
        requires
            old(self).wf(),
        ensures
            final(self).wf(),
            run_wf(final(self)@),
            final(self)@ == old(self)@.resume(input@).0,
            final(sink).received() == old(sink).received() + old(self)@.resume(input@).1,
    {
        let ghost given = input@;
        assert(sink.received() + Seq::<EventModel>::empty() =~= sink.received());
        match input {
            RunInput::Found(around) => {
                match &self.phase {
                    RunPhase::Checking => {},
                    _ => {
                        return;
                    },
                }
                self.check(&around, sink);
            },
            RunInput::Output(stream, line) => {
                match &self.phase {
                    RunPhase::Executing(_) => {},
                    _ => {
                        return;
                    },
                }
                let task = &self.tasks[self.outcomes.len()];
                sink.handle(
                    RunnerEvent::OutputLine { task_id: task.id.clone(), stream, line },
                );
                assert(sink.received() =~= old(sink).received() + old(self)@.resume(given).1);
            },
            RunInput::Exited(ended) => {
                match &self.phase {
                    RunPhase::Executing(_) => {},
                    _ => {
                        return;
                    },
                }
                match ended {
                    Ok(code) => {
                        let number: i32 = match code {
                            Some(value) => value,
                            None => 1,
                        };
                        self.settle(classify_exit_code(number), sink);
                    },
                    Err(failure) => {
                        self.phase = RunPhase::Aborted(failure);
                    },
                }
            },
        }
    }

    fn check<S: EventSink>(&mut self, around: &Surroundings, sink: &mut S)
        requires
            old(self).wf(),
            old(self)@.phase is Checking,
        ensures
            final(self).wf(),
            final(self)@ == old(self)@.resume(InputModel::Found(around@)).0,
            final(sink).received() == old(sink).received() + old(self)@.resume(
                InputModel::Found(around@),
            ).1,
    {
        let ghost given = InputModel::Found(around@);
        let task = &self.tasks[self.outcomes.len()];
        match evaluate_preflight(task, around) {
            Err(failure) => {
                self.phase = RunPhase::Aborted(failure);
                assert(sink.received() =~= old(sink).received() + old(self)@.resume(given).1);
            },
            Ok(report) => {
                let ghost lines = report@.messages.map_values(
                    |line: Text| output(task@, StreamKind::Stderr, line),
                );
                let mut i: usize = 0;
                while i < report.messages.len()
                    invariant
                        i <= report.messages.len(),
                        lines == report@.messages.map_values(
                            |line: Text| output(task@, StreamKind::Stderr, line),
                        ),
                        sink.received() =~= old(sink).received() + lines.take(i as int),
                    decreases report.messages.len() - i,
                {
                    sink.handle(
                        RunnerEvent::OutputLine {
                            task_id: task.id.clone(),
                            stream: StreamKind::Stderr,
                            line: report.messages[i].clone(),
                        },
                    );
                    i += 1;
                }
                assert(lines.take(lines.len() as int) =~= lines);
                match report.status {
                    Some(status) => {
                        self.settle(status, sink);
                        assert(sink.received() =~= old(sink).received() + old(self)@.resume(
                            given,
                        ).1);
                    },
                    None => {
                        let command = build_command(
                            self.style,
                            task,
                            self.root.as_str(),
                            &self.options,
                        );
                        self.phase = RunPhase::Executing(command);
                    },
                }
            },
        }
    }

    /// What a run on the terminal shows besides the output of its processes when
    /// it takes note of `input`.
    pub fn console(&self, input: &RunInput) -> (res: Vec<ConsoleLine>)
        requires
            self.wf(),
        ensures
            res.deep_view() == self@.console(input@),
    {
        let none: Vec<ConsoleLine> = Vec::new();
        assert(none.deep_view() =~= Seq::empty());
        match (&self.phase, input) {
            (RunPhase::Checking, RunInput::Found(around)) => {
                let task = &self.tasks[self.outcomes.len()];
                let mut lines = task_heading(task.label.as_str());
                match evaluate_preflight(task, around) {
                    Err(_) => lines,
                    Ok(report) => {
                        let ghost heading = lines.deep_view();
                        let mut more = preflight_console(task.label.as_str(), &report);
                        let ghost tail = more.deep_view();
                        lines.append(&mut more);
                        assert(lines.deep_view() =~= heading + tail);
                        lines
                    },
                }
            },
            (RunPhase::Executing(_), RunInput::Exited(Ok(code))) => {
                let task = &self.tasks[self.outcomes.len()];
                let number: i32 = match code {
                    Some(value) => *value,
                    None => 1,
                };
                exit_console(task.label.as_str(), number)
            },
            _ => none,
        }
    }

    /// The result of the run, once it is over.
    pub fn result(&self) -> (res: Option<Result<RunSummary, Failure>>)
        requires
            self.wf(),
        ensures
            run_result(res) == self@.result(),
    {
        match &self.phase {
            RunPhase::Finished => Some(
                Ok(
                    RunSummary {
                        outcomes: clone_outcomes(&self.outcomes),
                        ok_count: self.ok_count,
                        warn_count: self.warn_count,
                        fail_count: self.fail_count,
                    },
                ),
            ),
            RunPhase::Aborted(failure) => Some(Err(failure.clone())),
            _ => None,
        }
    }
}

/// The failure to start the process of a task.
pub open spec fn start_failure(task: TaskModel, reason: Text) -> FailureModel {
    FailureModel { context: "failed to execute task "@ + task.id, cause: Some(reason) }
}

/// The failure to start the process of a task.
pub fn failed_to_start(task: &TaskDefinition, reason: String) -> (res: Failure)
    ensures
        res@ == start_failure(task@, reason@),
{
    Failure {
        context: concat2("failed to execute task ", task.id.as_str()),
        cause: Some(reason),
    }
}

/// The failure to wait for the process of a task.
pub open spec fn wait_failure(reason: Text) -> FailureModel {
    FailureModel { context: "failed to wait on task process"@, cause: Some(reason) }
}

/// The failure to wait for the process of a task.
pub fn failed_to_wait(reason: String) -> (res: Failure)
    ensures
        res@ == wait_failure(reason@),
        res@ == (FailureModel {
            context: "failed to wait on task process"@,
            cause: Some(reason@),
        }),
{
    Failure { context: "failed to wait on task process".to_owned(), cause: Some(reason) }
}

/// The result of a run, as content.
pub open spec fn run_result(res: Option<Result<RunSummary, Failure>>) -> Option<
    Result<SummaryModel, FailureModel>,
> {
    match res {
        Some(Ok(summary)) => Some(Ok(summary@)),
        Some(Err(failure)) => Some(Err(failure@)),
        None => None,
    }
}

/// A run after these inputs, with the events that followed from them.
pub open spec fn steps(m: RunModel, inputs: Seq<InputModel>) -> (RunModel, Seq<EventModel>)
    decreases inputs.len(),
{
    if inputs.len() == 0 {
        (m, Seq::empty())
    } else {
        let (before, events) = steps(m, inputs.drop_last());
        let (after, more) = before.resume(inputs.last());
        (after, events + more)
    }
}

/// A run of these tasks after these inputs, with all its events.
pub open spec fn run_of(
    style: PathStyle,
    root: Text,
    tasks: Seq<TaskModel>,
    options: RunOptions,
    inputs: Seq<InputModel>,
) -> (RunModel, Seq<EventModel>) {
    let (begun, first) = fresh_run(style, root, tasks, options).next_task();
    let (m, events) = steps(begun, inputs);
    (m, first + events)
}

/// The outcomes that events announce, in order.
pub open spec fn announced_outcomes(events: Seq<EventModel>) -> Seq<OutcomeModel>
    decreases events.len(),
{
    if events.len() == 0 {
        Seq::empty()
    } else {
        let before = announced_outcomes(events.drop_last());
        match events.last() {
            EventModel::TaskFinished { task_id, label, status } => before.push(
                OutcomeModel { id: task_id, label, status },
            ),
            _ => before,
        }
    }
}

/// The ids of the tasks that events say were started, in order.
pub open spec fn announced_starts(events: Seq<EventModel>) -> Seq<Text>
    decreases events.len(),
{
    if events.len() == 0 {
        Seq::empty()
    } else {
        let before = announced_starts(events.drop_last());
        match events.last() {
            EventModel::TaskStarted { task_id, label } => before.push(task_id),
            _ => before,
        }
    }
}

proof fn lemma_announced_concat(first: Seq<EventModel>, second: Seq<EventModel>)
    ensures
        announced_outcomes(first + second) == announced_outcomes(first) + announced_outcomes(
            second,
        ),
        announced_starts(first + second) == announced_starts(first) + announced_starts(second),
    decreases second.len(),
{
    if second.len() == 0 {
        assert(first + second =~= first);
    } else {
        assert((first + second).drop_last() =~= first + second.drop_last());
        assert((first + second).last() == second.last());
        lemma_announced_concat(first, second.drop_last());
    }
}

proof fn lemma_output_announces_nothing(events: Seq<EventModel>)
    requires
        forall|i: int| 0 <= i < events.len() ==> (#[trigger] events[i]) is OutputLine,
    ensures
        announced_outcomes(events) == Seq::<OutcomeModel>::empty(),
        announced_starts(events) == Seq::<Text>::empty(),
    decreases events.len(),
{
    if events.len() > 0 {
        assert(events.last() == events[events.len() - 1]);
        let init = events.drop_last();
        assert forall|i: int| 0 <= i < init.len() implies (#[trigger] init[i]) is OutputLine by {
            assert(init[i] == events[i]);
        }
        lemma_output_announces_nothing(init);
    }
}

proof fn lemma_single_announcement(event: EventModel)
    ensures
        announced_outcomes(seq![event]) == (match event {
            EventModel::TaskFinished { task_id, label, status } => seq![
                OutcomeModel { id: task_id, label, status },
            ],
            _ => Seq::empty(),
        }),
        announced_starts(seq![event]) == (match event {
            EventModel::TaskStarted { task_id, label } => seq![task_id],
            _ => Seq::empty(),
        }),
{
    assert(seq![event].drop_last() =~= Seq::<EventModel>::empty());
    assert(announced_outcomes(Seq::<EventModel>::empty()) =~= Seq::empty());
    assert(announced_starts(Seq::<EventModel>::empty()) =~= Seq::empty());
}

/// The ids of the tasks that have been started.
pub open spec fn started_ids(m: RunModel) -> Seq<Text> {
    let ids = m.tasks.map_values(|task: TaskModel| task.id);
    if m.phase is Finished {
        ids
    } else {
        ids.take(m.outcomes.len() as int + 1)
    }
}

/// A step keeps what holds of every run, and never touches the style, the root, the tasks,
/// the options or an outcome that is already recorded.
pub proof fn steps_keep_what_is_recorded(m: RunModel, input: InputModel)
    requires
        run_wf(m),
    ensures
        ({
            let after = m.resume(input).0;
            &&& run_wf(after)
            &&& after.style == m.style
            &&& after.root == m.root
            &&& after.tasks == m.tasks
            &&& after.options == m.options
            &&& m.outcomes.is_prefix_of(after.outcomes)
            &&& after.outcomes.len() <= m.outcomes.len() + 1
        }),
{
    let after = m.resume(input).0;
    assert(m.outcomes.is_prefix_of(after.outcomes));
}

/// A run that is over takes note of nothing more.
pub proof fn runs_that_are_over_stay_over(m: RunModel, input: InputModel)
    requires
        m.result() is Some,
    ensures
        m.resume(input) == (m, Seq::<EventModel>::empty()),
{
}

/// Where a preflight report gives the current task a status, the task gets that
/// outcome and its process is not started; where it gives none, nothing is
/// recorded and exactly the task's process is to be started.
pub proof fn preflight_decides_whether_a_task_is_executed(m: RunModel, around: SurroundingsModel)
    requires
        run_wf(m),
        m.phase is Checking,
    ensures
        ({
            let after = m.resume(InputModel::Found(around)).0;
            match runner::preflight_outcome(m.current(), around) {
                Err(failure) => after.result() == Some(
                    Err::<SummaryModel, FailureModel>(failure),
                ),
                Ok(report) => match report.status {
                    Some(status) => {
                        &&& !(after.phase is Executing)
                        &&& after.outcomes == m.outcomes.push(outcome_of(m.current(), status))
                    },
                    None => {
                        &&& after.outcomes == m.outcomes
                        &&& after.phase == PhaseModel::Executing(
                            runner::task_command(m.style, m.current(), m.root, m.options),
                        )
                    },
                },
            }
        }),
{
}

proof fn lemma_resume_announces(m: RunModel, input: InputModel)
    requires
        run_wf(m),
    ensures
        ({
            let (after, events) = m.resume(input);
            &&& after.outcomes == m.outcomes + announced_outcomes(events)
            &&& started_ids(after) == started_ids(m) + announced_starts(events)
        }),
{
    let (after, events) = m.resume(input);
    let none = Seq::<EventModel>::empty();
    lemma_output_announces_nothing(none);
    match (m.phase, input) {
        (PhaseModel::Checking, InputModel::Found(around)) => {
            match runner::preflight_outcome(m.current(), around) {
                Err(_) => {},
                Ok(report) => {
                    let lines = report.messages.map_values(
                        |line: Text| output(m.current(), StreamKind::Stderr, line),
                    );
                    lemma_output_announces_nothing(lines);
                    match report.status {
                        Some(status) => {
                            lemma_announced_concat(lines, m.settle(status).1);
                            lemma_settle_announces(m, status);
                        },
                        None => {},
                    }
                },
            }
        },
        (PhaseModel::Executing(_), InputModel::Output(stream, line)) => {
            lemma_single_announcement(output(m.current(), stream, line));
        },
        (PhaseModel::Executing(_), InputModel::Exited(Ok(code))) => {
            lemma_settle_announces(
                m,
                runner::exit_status(
                    match code {
                        Some(code) => code as int,
                        None => 1,
                    },
                ),
            );
        },
        _ => {},
    }
    assert(after.outcomes =~= m.outcomes + announced_outcomes(events));
    assert(started_ids(after) =~= started_ids(m) + announced_starts(events));
}

proof fn lemma_settle_announces(m: RunModel, status: OutcomeStatus)
    requires
        run_wf(m),
        m.outcomes.len() < m.tasks.len(),
    ensures
        ({
            let (after, events) = m.settle(status);
            &&& after.outcomes == m.outcomes + announced_outcomes(events)
            &&& started_ids(after) == started_ids(m) + announced_starts(events)
        }),
{
    let (after, events) = m.settle(status);
    let first = finished(m.current(), status);
    lemma_single_announcement(first);
    if after.outcomes.len() < m.tasks.len() {
        let second = started(after.current());
        lemma_single_announcement(second);
        lemma_announced_concat(seq![first], seq![second]);
        assert(events =~= seq![first] + seq![second]);
    } else {
        assert(events =~= seq![first]);
    }
    assert(after.outcomes =~= m.outcomes + announced_outcomes(events));
    assert(started_ids(after) =~= started_ids(m) + announced_starts(events));
}

/// After the events in `earlier`, the next one tells of the first task without an
/// outcome: that it starts, and once it has started, its output or its end.
pub open spec fn in_turn(
    tasks: Seq<TaskModel>,
    earlier: Seq<EventModel>,
    event: EventModel,
) -> bool {
    let done = announced_outcomes(earlier).len();
    let begun = announced_starts(earlier).len();
    &&& done < tasks.len()
    &&& match event {
        EventModel::TaskStarted { task_id, label } => begun == done && event == started(
            tasks[done as int],
        ),
        EventModel::OutputLine { task_id, stream, line } => begun == done + 1 && event == output(
            tasks[done as int],
            stream,
            line,
        ),
        EventModel::TaskFinished { task_id, label, status } => begun == done + 1 && event
            == finished(tasks[done as int], status),
    }
}

/// The events tell of the tasks one after the other, in order: each starts, has
/// its lines of output, and ends before the next one starts.
#[verifier::opaque]
pub open spec fn told_in_turn(tasks: Seq<TaskModel>, events: Seq<EventModel>) -> bool {
    forall|i: int|
        0 <= i < events.len() ==> in_turn(tasks, events.take(i), #[trigger] events[i])
}

proof fn lemma_next_in_turn(tasks: Seq<TaskModel>, events: Seq<EventModel>, event: EventModel)
    requires
        told_in_turn(tasks, events),
        in_turn(tasks, events, event),
    ensures
        told_in_turn(tasks, events.push(event)),
{
    reveal(told_in_turn);
    let longer = events.push(event);
    assert forall|i: int| 0 <= i < longer.len() implies in_turn(
        tasks,
        longer.take(i),
        #[trigger] longer[i],
    ) by {
        assert(longer.take(i) =~= events.take(i));
        if i == events.len() {
            assert(events.take(i) =~= events);
        } else {
            assert(in_turn(tasks, events.take(i), events[i]));
        }
    }
}

/// Lines of output of the task whose turn it is come in turn.
proof fn lemma_output_in_turn(
    tasks: Seq<TaskModel>,
    events: Seq<EventModel>,
    lines: Seq<EventModel>,
    task: TaskModel,
)
    requires
        told_in_turn(tasks, events),
        announced_outcomes(events).len() < tasks.len(),
        announced_starts(events).len() == announced_outcomes(events).len() + 1,
        task == tasks[announced_outcomes(events).len() as int],
        forall|i: int|
            0 <= i < lines.len() ==> ((#[trigger] lines[i]) matches EventModel::OutputLine {
                task_id,
                stream,
                line,
            } && lines[i] == output(task, stream, line)),
    ensures
        told_in_turn(tasks, events + lines),
        announced_outcomes(events + lines) == announced_outcomes(events),
        announced_starts(events + lines) == announced_starts(events),
    decreases lines.len(),
{
    if lines.len() == 0 {
        assert(events + lines =~= events);
    } else {
        let init = lines.drop_last();
        assert forall|i: int| 0 <= i < init.len() implies ((
        #[trigger] init[i]) matches EventModel::OutputLine { task_id, stream, line } && init[i]
            == output(task, stream, line)) by {
            assert(init[i] == lines[i]);
        }
        lemma_output_in_turn(tasks, events, init, task);
        let last = lines[lines.len() - 1];
        assert(last is OutputLine);
        lemma_next_in_turn(tasks, events + init, last);
        assert((events + init).push(last) =~= events + lines);
        assert((events + lines).drop_last() =~= events + init);
    }
}

proof fn lemma_settle_in_turn(m: RunModel, events: Seq<EventModel>, status: OutcomeStatus)
    requires
        run_wf(m),
        m.outcomes.len() < m.tasks.len(),
        told_in_turn(m.tasks, events),
        announced_outcomes(events).len() == m.outcomes.len(),
        announced_starts(events).len() == m.outcomes.len() + 1,
    ensures
        told_in_turn(m.tasks, events + m.settle(status).1),
{
    let (after, more) = m.settle(status);
    let end = finished(m.current(), status);
    lemma_next_in_turn(m.tasks, events, end);
    let ended = events.push(end);
    assert(ended.drop_last() =~= events);
    assert(ended.last() == end);
    assert(announced_outcomes(ended).len() == m.outcomes.len() + 1);
    assert(announced_starts(ended) == announced_starts(events));
    assert(after.tasks == m.tasks && after.outcomes.len() == m.outcomes.len() + 1);
    if after.outcomes.len() < m.tasks.len() {
        let start = started(after.current());
        assert(more =~= seq![end, start]);
        assert(in_turn(m.tasks, ended, start));
        lemma_next_in_turn(m.tasks, ended, start);
        assert(events + more =~= ended.push(start));
    } else {
        assert(more =~= seq![end]);
        assert(events + more =~= ended);
    }
}

proof fn lemma_resume_in_turn(m: RunModel, events: Seq<EventModel>, input: InputModel)
    requires
        run_wf(m),
        told_in_turn(m.tasks, events),
        announced_outcomes(events) == m.outcomes,
        announced_starts(events) == started_ids(m),
    ensures
        told_in_turn(m.tasks, events + m.resume(input).1),
{
    let more = m.resume(input).1;
    match (m.phase, input) {
        (PhaseModel::Checking, InputModel::Found(around)) => {
            match runner::preflight_outcome(m.current(), around) {
                Err(_) => {
                    assert(events + more =~= events);
                },
                Ok(report) => {
                    let lines = report.messages.map_values(
                        |line: Text| output(m.current(), StreamKind::Stderr, line),
                    );
                    lemma_output_in_turn(m.tasks, events, lines, m.current());
                    match report.status {
                        Some(status) => {
                            lemma_settle_in_turn(m, events + lines, status);
                            assert(events + more =~= events + lines + m.settle(status).1);
                        },
                        None => {},
                    }
                },
            }
        },
        (PhaseModel::Executing(_), InputModel::Output(stream, line)) => {
            lemma_output_in_turn(m.tasks, events, more, m.current());
        },
        (PhaseModel::Executing(_), InputModel::Exited(Ok(code))) => {
            lemma_settle_in_turn(
                m,
                events,
                runner::exit_status(
                    match code {
                        Some(code) => code as int,
                        None => 1,
                    },
                ),
            );
        },
        _ => {
            assert(events + more =~= events);
        },
    }
}

/// Whatever happens, what holds of every run holds, tasks are started in the
/// order of the plan, and the outcomes that the events announce are exactly the
/// recorded ones. The events tell of one task after the other: that it starts,
/// its output, and its end. The end of the current task is missing from a run
/// that goes on or broke off, and only from that.
pub proof fn events_tell_the_whole_run(
    style: PathStyle,
    root: Text,
    tasks: Seq<TaskModel>,
    options: RunOptions,
    inputs: Seq<InputModel>,
)
    ensures
        ({
            let (m, events) = run_of(style, root, tasks, options, inputs);
            &&& run_wf(m)
            &&& m.tasks == tasks
            &&& announced_outcomes(events) == m.outcomes
            &&& announced_starts(events) == started_ids(m)
            &&& told_in_turn(tasks, events)
            &&& announced_starts(events).len() == announced_outcomes(events).len() + if m.phase
                is Finished {
                0int
            } else {
                1
            }
        }),
    decreases inputs.len(),
{
    let (m, events) = run_of(style, root, tasks, options, inputs);
    if inputs.len() == 0 {
        lemma_output_announces_nothing(Seq::<EventModel>::empty());
        let first = fresh_run(style, root, tasks, options).next_task().1;
        assert(events =~= first);
        if tasks.len() > 0 {
            lemma_single_announcement(started(tasks[0]));
            let none = Seq::<EventModel>::empty();
            assert(told_in_turn(tasks, none)) by {
                reveal(told_in_turn);
            }
            lemma_next_in_turn(tasks, none, started(tasks[0]));
            assert(none.push(started(tasks[0])) =~= events);
        } else {
            assert(told_in_turn(tasks, events)) by {
                reveal(told_in_turn);
            }
        }
        assert(announced_outcomes(events) =~= m.outcomes);
        assert(announced_starts(events) =~= started_ids(m));
    } else {
        let init = inputs.drop_last();
        events_tell_the_whole_run(style, root, tasks, options, init);
        let (before, earlier) = run_of(style, root, tasks, options, init);
        let more = before.resume(inputs.last()).1;
        lemma_resume_announces(before, inputs.last());
        steps_keep_what_is_recorded(before, inputs.last());
        assert(events =~= earlier + more);
        lemma_announced_concat(earlier, more);
        lemma_resume_in_turn(before, earlier, inputs.last());
    }
}

/// A run that finished has one outcome for each task, in the order of the plan,
/// and its counts add up to the number of tasks.
pub proof fn finished_runs_account_for_every_task(
    style: PathStyle,
    root: Text,
    tasks: Seq<TaskModel>,
    options: RunOptions,
    inputs: Seq<InputModel>,
)
    ensures
        run_of(style, root, tasks, options, inputs).0.result() matches Some(Ok(summary)) ==> {
            &&& summary.outcomes.len() == tasks.len()
            &&& forall|i: int|
                0 <= i < tasks.len() ==> (#[trigger] summary.outcomes[i]).id == tasks[i].id
                    && summary.outcomes[i].label == tasks[i].label
            &&& summary.ok_count + summary.warn_count + summary.fail_count == tasks.len()
        },
{
    events_tell_the_whole_run(style, root, tasks, options, inputs);
    let m = run_of(style, root, tasks, options, inputs).0;
    runner::summary_counts_every_outcome(m.outcomes);
}

} // verus!

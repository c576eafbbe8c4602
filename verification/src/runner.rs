//! Task outcomes, preflight checks, and the commands that tasks become.

use crate::catalog::{
    MissingRequirementPolicy, RunnerModel, TaskDefinition, TaskModel, TaskRunner,
};
use crate::failure::{Failure, FailureModel};
use crate::paths;
use crate::paths::{join_path, PathStyle};
use crate::text;
use crate::text::{
    clone_texts, concat2, concat3, contains_char, signed_decimal, strip_prefix, text_eq, Text,
};
use crate::variables;
use vstd::prelude::*;

verus! {

/// The exit code by which a task asks for attention without failing.
pub const WARN_EXIT_CODE: i32 = 10;

/// Runtime flags of a run.
#[derive(Debug, Clone, Copy, PartialEq, Eq, Structural)]
pub struct RunOptions {
    pub dry_run: bool,
    pub verbose: bool,
    pub brew_cleanup: bool,
    pub npm_audit: bool,
}

/// All flags off.
pub open spec fn no_options() -> RunOptions {
    RunOptions { dry_run: false, verbose: false, brew_cleanup: false, npm_audit: false }
}

impl Default for RunOptions {
    fn default() -> (res: Self)
        ensures
            res == no_options(),
            !res.dry_run && !res.verbose && !res.brew_cleanup && !res.npm_audit,
    {
        RunOptions { dry_run: false, verbose: false, brew_cleanup: false, npm_audit: false }
    }
}

/// How a task ended.
#[derive(Debug, Clone, Copy, PartialEq, Eq, Structural)]
pub enum OutcomeStatus {
    Success,
    Warn,
    Fail,
}

/// The stream a line of output belongs to.
#[derive(Debug, Clone, Copy, PartialEq, Eq, Structural)]
pub enum StreamKind {
    Stdout,
    Stderr,
}

/// How one task of a run ended.
#[derive(Debug, PartialEq, Eq)]
pub struct TaskOutcome {
    pub id: String,
    pub label: String,
    pub status: OutcomeStatus,
}

/// How a whole run ended.
#[derive(Debug, PartialEq, Eq)]
pub struct RunSummary {
    pub outcomes: Vec<TaskOutcome>,
    pub ok_count: usize,
    pub warn_count: usize,
    pub fail_count: usize,
}

/// What happens during a run.
#[derive(Debug, PartialEq, Eq)]
pub enum RunnerEvent {
    TaskStarted { task_id: String, label: String },
    OutputLine { task_id: String, stream: StreamKind, line: String },
    TaskFinished { task_id: String, label: String, status: OutcomeStatus },
}

/// The content of a [`TaskOutcome`].
#[verifier::ext_equal]
pub struct OutcomeModel {
    pub id: Text,
    pub label: Text,
    pub status: OutcomeStatus,
}

/// The content of a [`RunSummary`].
#[verifier::ext_equal]
pub struct SummaryModel {
    pub outcomes: Seq<OutcomeModel>,
    pub ok_count: nat,
    pub warn_count: nat,
    pub fail_count: nat,
}

/// The content of a [`RunnerEvent`].
#[verifier::ext_equal]
pub enum EventModel {
    TaskStarted { task_id: Text, label: Text },
    OutputLine { task_id: Text, stream: StreamKind, line: Text },
    TaskFinished { task_id: Text, label: Text, status: OutcomeStatus },
}

impl View for TaskOutcome {
    type V = OutcomeModel;

    open spec fn view(&self) -> OutcomeModel {
        OutcomeModel { id: self.id@, label: self.label@, status: self.status }
    }
}

impl DeepView for TaskOutcome {
    type V = OutcomeModel;

    open spec fn deep_view(&self) -> OutcomeModel {
        self.view()
    }
}

impl View for RunSummary {
    type V = SummaryModel;

    open spec fn view(&self) -> SummaryModel {
        SummaryModel {
            outcomes: self.outcomes.deep_view(),
            ok_count: self.ok_count as nat,
            warn_count: self.warn_count as nat,
            fail_count: self.fail_count as nat,
        }
    }
}

impl DeepView for RunSummary {
    type V = SummaryModel;

    open spec fn deep_view(&self) -> SummaryModel {
        self.view()
    }
}

impl View for RunnerEvent {
    type V = EventModel;

    open spec fn view(&self) -> EventModel {
        match self {
            RunnerEvent::TaskStarted { task_id, label } => EventModel::TaskStarted {
                task_id: task_id@,
                label: label@,
            },
            RunnerEvent::OutputLine { task_id, stream, line } => EventModel::OutputLine {
                task_id: task_id@,
                stream: *stream,
                line: line@,
            },
            RunnerEvent::TaskFinished { task_id, label, status } => EventModel::TaskFinished {
                task_id: task_id@,
                label: label@,
                status: *status,
            },
        }
    }
}

impl DeepView for RunnerEvent {
    type V = EventModel;

    open spec fn deep_view(&self) -> EventModel {
        self.view()
    }
}

impl Clone for TaskOutcome {
    fn clone(&self) -> (res: Self)
        ensures
            res@ == self@,
    {
        TaskOutcome { id: self.id.clone(), label: self.label.clone(), status: self.status }
    }
}

/// A copy of a list of outcomes.
pub fn clone_outcomes(outcomes: &Vec<TaskOutcome>) -> (res: Vec<TaskOutcome>)
    ensures
        res.deep_view() == outcomes.deep_view(),
{
    let mut res: Vec<TaskOutcome> = Vec::new();
    let mut i: usize = 0;
    while i < outcomes.len()
        invariant
            i <= outcomes.len(),
            res.deep_view() =~= outcomes.deep_view().take(i as int),
        decreases outcomes.len() - i,
    {
        let ghost before = res.deep_view();
        let outcome = outcomes[i].clone();
        res.push(outcome);
        assert(res.deep_view() =~= before.push(outcomes.deep_view()[i as int]));
        i += 1;
    }
    assert(outcomes.deep_view().take(outcomes.len() as int) =~= outcomes.deep_view());
    res
}

impl Clone for RunSummary {
    fn clone(&self) -> (res: Self)
        ensures
            res@ == self@,
    {
        RunSummary {
            outcomes: clone_outcomes(&self.outcomes),
            ok_count: self.ok_count,
            warn_count: self.warn_count,
            fail_count: self.fail_count,
        }
    }
}

impl Clone for RunnerEvent {
    fn clone(&self) -> (res: Self)
        ensures
            res@ == self@,
    {
        match self {
            RunnerEvent::TaskStarted { task_id, label } => RunnerEvent::TaskStarted {
                task_id: task_id.clone(),
                label: label.clone(),
            },
            RunnerEvent::OutputLine { task_id, stream, line } => RunnerEvent::OutputLine {
                task_id: task_id.clone(),
                stream: *stream,
                line: line.clone(),
            },
            RunnerEvent::TaskFinished { task_id, label, status } => RunnerEvent::TaskFinished {
                task_id: task_id.clone(),
                label: label.clone(),
                status: *status,
            },
        }
    }
}

/// The name under which a status is shown.
pub open spec fn status_label(status: OutcomeStatus) -> Text {
    match status {
        OutcomeStatus::Success => "OK"@,
        OutcomeStatus::Warn => "WARN"@,
        OutcomeStatus::Fail => "FAIL"@,
    }
}

impl OutcomeStatus {
    /// The name under which the status is shown.
    pub fn label(self) -> (res: &'static str)
        ensures
            res@ == status_label(self),
            self == OutcomeStatus::Success ==> res@ == "OK"@,
            self == OutcomeStatus::Warn ==> res@ == "WARN"@,
            self == OutcomeStatus::Fail ==> res@ == "FAIL"@,
    {
        match self {
            OutcomeStatus::Success => "OK",
            OutcomeStatus::Warn => "WARN",
            OutcomeStatus::Fail => "FAIL",
        }
    }
}

/// What an exit code says about a task.
pub open spec fn exit_status(code: int) -> OutcomeStatus {
    if code == 0 {
        OutcomeStatus::Success
    } else if code == WARN_EXIT_CODE {
        OutcomeStatus::Warn
    } else {
        OutcomeStatus::Fail
    }
}

/// What an exit code says about a task.
pub fn classify_exit_code(code: i32) -> (res: OutcomeStatus)
    ensures
        res == exit_status(code as int),
        res == OutcomeStatus::Success <==> code == 0,
        res == OutcomeStatus::Warn <==> code == 10,
        res == OutcomeStatus::Fail <==> code != 0 && code != 10,
{
    if code == 0 {
        OutcomeStatus::Success
    } else if code == WARN_EXIT_CODE {
        OutcomeStatus::Warn
    } else {
        OutcomeStatus::Fail
    }
}

/// A flag as the value of an environment variable.
pub open spec fn flag_text(value: bool) -> Text {
    if value {
        "1"@
    } else {
        "0"@
    }
}

/// A flag as the value of an environment variable.
pub fn bool_env(value: bool) -> (res: &'static str)
    ensures
        res@ == flag_text(value),
        value ==> res@ == "1"@,
        !value ==> res@ == "0"@,
{
    if value {
        "1"
    } else {
        "0"
    }
}

/// A process to start. Variables are set in order, later ones over earlier
/// ones of the same name.
#[derive(Debug, PartialEq, Eq)]
pub struct CommandSpec {
    pub program: String,
    pub args: Vec<String>,
    pub current_dir: String,
    pub env: Vec<(String, String)>,
}

/// The content of a [`CommandSpec`].
#[verifier::ext_equal]
pub struct CommandModel {
    pub program: Text,
    pub args: Seq<Text>,
    pub current_dir: Text,
    pub env: Seq<(Text, Text)>,
}

impl View for CommandSpec {
    type V = CommandModel;

    open spec fn view(&self) -> CommandModel {
        CommandModel {
            program: self.program@,
            args: self.args.deep_view(),
            current_dir: self.current_dir@,
            env: self.env.deep_view(),
        }
    }
}

impl DeepView for CommandSpec {
    type V = CommandModel;

    open spec fn deep_view(&self) -> CommandModel {
        self.view()
    }
}

/// The variables that every task gets.
pub open spec fn cockpit_env(task: TaskModel, root: Text, options: RunOptions) -> Seq<
    (Text, Text),
> {
    seq![
        ("UC_REPO_ROOT"@, root),
        ("UC_DRY_RUN"@, flag_text(options.dry_run)),
        ("UC_VERBOSE"@, flag_text(options.verbose)),
        ("UC_BREW_CLEANUP"@, flag_text(options.brew_cleanup)),
        ("UC_NPM_AUDIT"@, flag_text(options.npm_audit)),
        ("UC_TASK_ID"@, task.id),
    ]
}

/// The process that runs a task: a script under its shell, or a command, in
/// the root directory, with the cockpit's variables and then the task's own.
pub open spec fn task_command(
    style: PathStyle,
    task: TaskModel,
    root: Text,
    options: RunOptions,
) -> CommandModel {
    CommandModel {
        program: match task.runner {
            RunnerModel::Script { path, shell, args } => shell,
            RunnerModel::Command { program, args } => program,
        },
        args: match task.runner {
            RunnerModel::Script { path, shell, args } => seq![
                paths::joined_path(style, root, path),
            ] + args,
            RunnerModel::Command { program, args } => args,
        },
        current_dir: root,
        env: cockpit_env(task, root, options) + task.env,
    }
}

fn push_variable(env: &mut Vec<(String, String)>, name: &str, value: &str)
    ensures
        final(env).deep_view() == old(env).deep_view().push((name@, value@)),
{
    env.push((name.to_owned(), value.to_owned()));
    assert(env.deep_view() =~= old(env).deep_view().push((name@, value@)));
}

/// Appends `more` to `texts`.
pub fn extend_texts(texts: &mut Vec<String>, more: Vec<String>)
    ensures
        final(texts).deep_view() == old(texts).deep_view() + more.deep_view(),
{
    let mut more = more;
    let ghost tail = more.deep_view();
    texts.append(&mut more);
    assert(texts.deep_view() =~= old(texts).deep_view() + tail);
}

/// The process that runs a task.
pub fn build_command(
    style: PathStyle,
    task: &TaskDefinition,
    root: &str,
    options: &RunOptions,
) -> (res: CommandSpec)
    ensures
        res@ == task_command(style, task@, root@, *options),
{
    let program = match &task.runner {
        TaskRunner::Script { path, shell, args } => shell.clone(),
        TaskRunner::Command { program, args } => program.clone(),
    };
    let args: Vec<String> = match &task.runner {
        TaskRunner::Script { path, shell, args } => {
            let mut all: Vec<String> = Vec::new();
            all.push(join_path(style, root, path.as_str()));
            assert(all.deep_view() =~= seq![paths::joined_path(style, root@, path@)]);
            extend_texts(&mut all, clone_texts(args));
            all
        },
        TaskRunner::Command { program, args } => clone_texts(args),
    };
    let mut env: Vec<(String, String)> = Vec::new();
    assert(env.deep_view() =~= Seq::empty());
    push_variable(&mut env, "UC_REPO_ROOT", root);
    push_variable(&mut env, "UC_DRY_RUN", bool_env(options.dry_run));
    push_variable(&mut env, "UC_VERBOSE", bool_env(options.verbose));
    push_variable(&mut env, "UC_BREW_CLEANUP", bool_env(options.brew_cleanup));
    push_variable(&mut env, "UC_NPM_AUDIT", bool_env(options.npm_audit));
    push_variable(&mut env, "UC_TASK_ID", task.id.as_str());
    assert(env.deep_view() =~= cockpit_env(task@, root@, *options));
    let mut i: usize = 0;
    let own = task.env.entries();
    while i < own.len()
        invariant
            i <= own.len(),
            own.deep_view() == task@.env,
            env.deep_view() =~= cockpit_env(task@, root@, *options) + task@.env.take(i as int),
        decreases own.len() - i,
    {
        push_variable(&mut env, own[i].0.as_str(), own[i].1.as_str());
        i += 1;
    }
    assert(task@.env.take(own.len() as int) =~= task@.env);
    CommandSpec { program, args, current_dir: root.to_owned(), env }
}

/// What was found on the machine for the requirements of one task: whether each
/// required command is available and each required path exists, in the order
/// in which the task lists them, the home directory or why it is unknown, and how
/// the system writes its paths.
#[derive(Debug, PartialEq, Eq)]
pub struct Surroundings {
    pub commands: Vec<bool>,
    pub paths: Vec<bool>,
    pub home: Result<String, String>,
    pub style: PathStyle,
}

/// The content of [`Surroundings`].
#[verifier::ext_equal]
pub struct SurroundingsModel {
    pub commands: Seq<bool>,
    pub paths: Seq<bool>,
    pub home: Result<Text, Text>,
    pub style: PathStyle,
}

/// The home directory or why it is unknown, as content.
pub open spec fn home_view(home: Result<String, String>) -> Result<Text, Text> {
    match home {
        Ok(dir) => Ok(dir@),
        Err(reason) => Err(reason@),
    }
}

impl View for Surroundings {
    type V = SurroundingsModel;

    open spec fn view(&self) -> SurroundingsModel {
        SurroundingsModel {
            commands: self.commands@,
            paths: self.paths@,
            home: home_view(self.home),
            style: self.style,
        }
    }
}

/// What a preflight check found: nothing, or the status that the task gets
/// without being run and the lines that explain it.
#[derive(Debug, PartialEq, Eq)]
pub struct PreflightReport {
    pub status: Option<OutcomeStatus>,
    pub messages: Vec<String>,
}

/// The content of a [`PreflightReport`].
#[verifier::ext_equal]
pub struct ReportModel {
    pub status: Option<OutcomeStatus>,
    pub messages: Seq<Text>,
}

impl View for PreflightReport {
    type V = ReportModel;

    open spec fn view(&self) -> ReportModel {
        ReportModel { status: self.status, messages: self.messages.deep_view() }
    }
}

impl DeepView for PreflightReport {
    type V = ReportModel;

    open spec fn deep_view(&self) -> ReportModel {
        self.view()
    }
}

impl Clone for PreflightReport {
    fn clone(&self) -> (res: Self)
        ensures
            res@ == self@,
    {
        PreflightReport { status: self.status, messages: clone_texts(&self.messages) }
    }
}

/// The home directory, or the failure to find it.
pub open spec fn home_dir(home: Result<Text, Text>) -> Result<Text, FailureModel> {
    match home {
        Ok(dir) => Ok(dir),
        Err(reason) => Err(
            FailureModel { context: "HOME is not set"@, cause: Some(reason) },
        ),
    }
}

/// A path below the home directory.
pub open spec fn below_home(style: PathStyle, home: Result<Text, Text>, rest: Text) -> Result<
    Text,
    FailureModel,
> {
    match home_dir(home) {
        Ok(dir) => Ok(paths::joined_path(style, dir, rest)),
        Err(failure) => Err(failure),
    }
}

/// `~`, `~/..` and `$HOME/..` are replaced by the home directory; other paths
/// stay as they are.
pub open spec fn expanded_path(style: PathStyle, path: Text, home: Result<Text, Text>) -> Result<
    Text,
    FailureModel,
> {
    if path == "~"@ {
        home_dir(home)
    } else {
        match text::after_prefix(path, "~/"@) {
            Some(rest) => below_home(style, home, rest),
            None => match text::after_prefix(path, "$HOME/"@) {
                Some(rest) => below_home(style, home, rest),
                None => Ok(path),
            },
        }
    }
}

/// A text, or the failure to find it, as content.
pub open spec fn text_result(res: Result<String, Failure>) -> Result<Text, FailureModel> {
    match res {
        Ok(text) => Ok(text@),
        Err(failure) => Err(failure@),
    }
}

fn expand_below(style: PathStyle, home: &Result<String, String>, rest: &str) -> (res: Result<
    String,
    Failure,
>)
    ensures
        text_result(res) == below_home(style, home_view(*home), rest@),
{
    match home {
        Ok(dir) => Ok(join_path(style, dir.as_str(), rest)),
        Err(reason) => Err(
            Failure { context: "HOME is not set".to_owned(), cause: Some(reason.clone()) },
        ),
    }
}

/// Replaces a leading home directory abbreviation.
pub fn expand_path(style: PathStyle, path: &str, home: &Result<String, String>) -> (res: Result<
    String,
    Failure,
>)
    ensures
        text_result(res) == expanded_path(style, path@, home_view(*home)),
{
    if text_eq(path, "~") {
        return match home {
            Ok(dir) => Ok(dir.clone()),
            Err(reason) => Err(
                Failure { context: "HOME is not set".to_owned(), cause: Some(reason.clone()) },
            ),
        };
    }
    match strip_prefix(path, "~/") {
        Some(rest) => {
            return expand_below(style, home, rest.as_str());
        },
        None => {},
    }
    match strip_prefix(path, "$HOME/") {
        Some(rest) => {
            return expand_below(style, home, rest.as_str());
        },
        None => {},
    }
    Ok(path.to_owned())
}

/// Where a command is looked for: at one path, where anything that exists will
/// do, or as a file at one of several paths.
#[derive(Debug, PartialEq, Eq)]
pub enum CommandLookup {
    Exists(String),
    AnyFile(Vec<String>),
}

/// The content of a [`CommandLookup`].
#[verifier::ext_equal]
pub enum LookupModel {
    Exists(Text),
    AnyFile(Seq<Text>),
}

impl View for CommandLookup {
    type V = LookupModel;

    open spec fn view(&self) -> LookupModel {
        match self {
            CommandLookup::Exists(path) => LookupModel::Exists(path@),
            CommandLookup::AnyFile(candidates) => LookupModel::AnyFile(candidates.deep_view()),
        }
    }
}

/// The paths at which a command is looked for in these directories: its name and,
/// under Windows, its name as that of an executable file.
pub open spec fn candidates_in(style: PathStyle, dirs: Seq<Text>, command: Text) -> Seq<Text>
    decreases dirs.len(),
{
    if dirs.len() == 0 {
        Seq::empty()
    } else {
        let plain = candidates_in(style, dirs.drop_last(), command).push(
            paths::joined_path(style, dirs.last(), command),
        );
        match style {
            PathStyle::Unix => plain,
            PathStyle::Windows => plain.push(
                paths::joined_path(style, dirs.last(), command + ".exe"@),
            ),
        }
    }
}

/// A command with the system's path separator in it names a path; any other is
/// looked for in every directory of the search path, if there is one.
pub open spec fn lookup_of(
    style: PathStyle,
    command: Text,
    search_path: Option<Seq<Text>>,
) -> LookupModel {
    if command.contains(paths::main_separator(style)) {
        LookupModel::Exists(command)
    } else {
        match search_path {
            Some(dirs) => LookupModel::AnyFile(candidates_in(style, dirs, command)),
            None => LookupModel::AnyFile(Seq::empty()),
        }
    }
}

/// Where a command is looked for on a system with paths of this style.
pub fn command_lookup(
    style: PathStyle,
    command: &str,
    search_path: Option<&Vec<String>>,
) -> (res: CommandLookup)
    ensures
        res@ == lookup_of(style, command@, search_path.deep_view()),
{
    if contains_char(command, style.separator()) {
        return CommandLookup::Exists(command.to_owned());
    }
    let mut candidates: Vec<String> = Vec::new();
    assert(candidates.deep_view() =~= Seq::empty());
    match search_path {
        Some(dirs) => {
            let executable = concat2(command, ".exe");
            let ghost all = dirs.deep_view();
            assert(all.take(0) =~= Seq::empty());
            let mut i: usize = 0;
            while i < dirs.len()
                invariant
                    i <= dirs.len(),
                    all == dirs.deep_view(),
                    executable@ == command@ + ".exe"@,
                    candidates.deep_view() == candidates_in(style, all.take(i as int), command@),
                decreases dirs.len() - i,
            {
                proof {
                    let longer = all.take(i + 1);
                    assert(longer.drop_last() =~= all.take(i as int));
                    assert(longer.last() == dirs@[i as int]@);
                }
                let ghost before = candidates.deep_view();
                candidates.push(join_path(style, dirs[i].as_str(), command));
                let ghost plain = candidates.deep_view();
                assert(plain =~= before.push(paths::joined_path(style, all[i as int], command@)));
                match style {
                    PathStyle::Unix => {},
                    PathStyle::Windows => {
                        candidates.push(join_path(style, dirs[i].as_str(), executable.as_str()));
                        assert(candidates.deep_view() =~= plain.push(
                            paths::joined_path(style, all[i as int], executable@),
                        ));
                    },
                }
                i += 1;
            }
            assert(all.take(all.len() as int) =~= all);
        },
        None => {},
    }
    CommandLookup::AnyFile(candidates)
}

/// The check at position `i` was made and succeeded.
pub open spec fn found(checks: Seq<bool>, i: int) -> bool {
    0 <= i < checks.len() && checks[i]
}

/// A line for each of the first `count` commands that is not available.
pub open spec fn missing_commands(
    commands: Seq<Text>,
    checks: Seq<bool>,
    count: nat,
) -> Seq<Text>
    decreases count,
{
    if count == 0 {
        Seq::empty()
    } else {
        let before = missing_commands(commands, checks, (count - 1) as nat);
        if found(checks, count - 1) {
            before
        } else {
            before.push("Missing command: "@ + commands[count - 1])
        }
    }
}

/// A line for each of the first `count` paths that does not exist, or the
/// failure to expand one of them.
pub open spec fn missing_paths(
    style: PathStyle,
    required: Seq<Text>,
    checks: Seq<bool>,
    home: Result<Text, Text>,
    count: nat,
) -> Result<Seq<Text>, FailureModel>
    decreases count,
{
    if count == 0 {
        Ok(Seq::empty())
    } else {
        match missing_paths(style, required, checks, home, (count - 1) as nat) {
            Err(failure) => Err(failure),
            Ok(before) => match expanded_path(style, required[count - 1], home) {
                Err(failure) => Err(failure),
                Ok(path) => if found(checks, count - 1) {
                    Ok(before)
                } else {
                    Ok(before.push("Missing path: "@ + path))
                },
            },
        }
    }
}

/// The status of a task whose requirements are missing.
pub open spec fn missing_status(policy: MissingRequirementPolicy) -> OutcomeStatus {
    match policy {
        MissingRequirementPolicy::Warn => OutcomeStatus::Warn,
        MissingRequirementPolicy::Fail => OutcomeStatus::Fail,
    }
}

/// The line that says what becomes of a task whose requirements are missing.
pub open spec fn missing_verdict(policy: MissingRequirementPolicy) -> Text {
    match policy {
        MissingRequirementPolicy::Warn =>
            "Task skipped with warning because required tools are unavailable."@,
        MissingRequirementPolicy::Fail =>
            "Task cannot run because required tools are unavailable."@,
    }
}

/// The report on a task with these missing requirements.
pub open spec fn missing_report(task: TaskModel, missing: Seq<Text>) -> ReportModel {
    if missing.len() == 0 {
        ReportModel { status: None, messages: Seq::empty() }
    } else {
        ReportModel {
            status: Some(missing_status(task.preflight.on_missing)),
            messages: seq!["Preflight for "@ + task.label + ":"@] + missing + seq![
                missing_verdict(task.preflight.on_missing),
            ],
        }
    }
}

/// The preflight report of a task, or the failure to expand a required path.
pub open spec fn preflight_outcome(task: TaskModel, around: SurroundingsModel) -> Result<
    ReportModel,
    FailureModel,
> {
    let commands = task.preflight.requires_commands;
    let required = task.preflight.requires_paths;
    match missing_paths(around.style, required, around.paths, around.home, required.len()) {
        Err(failure) => Err(failure),
        Ok(missing) => Ok(
            missing_report(
                task,
                missing_commands(commands, around.commands, commands.len()) + missing,
            ),
        ),
    }
}

/// A report, or why there is none, as content.
pub open spec fn report_result(res: Result<PreflightReport, Failure>) -> Result<
    ReportModel,
    FailureModel,
> {
    match res {
        Ok(report) => Ok(report@),
        Err(failure) => Err(failure@),
    }
}

proof fn lemma_missing_paths_stops(
    style: PathStyle,
    required: Seq<Text>,
    checks: Seq<bool>,
    home: Result<Text, Text>,
    count: nat,
    total: nat,
)
    requires
        count <= total,
        missing_paths(style, required, checks, home, count) is Err,
    ensures
        missing_paths(style, required, checks, home, total) == missing_paths(
            style,
            required,
            checks,
            home,
            count,
        ),
    decreases total - count,
{
    if count < total {
        lemma_missing_paths_stops(style, required, checks, home, count + 1, total);
    }
}

fn is_found(checks: &Vec<bool>, i: usize) -> (res: bool)
    ensures
        res == found(checks@, i as int),
{
    i < checks.len() && checks[i]
}

/// Checks the requirements of a task against what was found on the machine.
/// A requirement counts as met only where the check for it succeeded.
pub fn evaluate_preflight(task: &TaskDefinition, around: &Surroundings) -> (res: Result<
    PreflightReport,
    Failure,
>)
    ensures
        report_result(res) == preflight_outcome(task@, around@),
{
    let mut missing: Vec<String> = Vec::new();
    assert(missing.deep_view() =~= Seq::empty());
    let commands = &task.preflight.requires_commands;
    let mut i: usize = 0;
    while i < commands.len()
        invariant
            i <= commands.len(),
            commands == task.preflight.requires_commands,
            missing.deep_view() =~= missing_commands(
                task@.preflight.requires_commands,
                around@.commands,
                i as nat,
            ),
        decreases commands.len() - i,
    {
        if !is_found(&around.commands, i) {
            let ghost before = missing.deep_view();
            missing.push(concat2("Missing command: ", commands[i].as_str()));
            assert(missing.deep_view() =~= before.push(
                "Missing command: "@ + task@.preflight.requires_commands[i as int],
            ));
        }
        i += 1;
    }
    let ghost first = missing.deep_view();
    let required = &task.preflight.requires_paths;
    let mut k: usize = 0;
    let ghost mut lines: Seq<Text> = Seq::empty();
    assert(missing.deep_view() =~= first + lines);
    while k < required.len()
        invariant
            k <= required.len(),
            required == task.preflight.requires_paths,
            first == missing_commands(
                task@.preflight.requires_commands,
                around@.commands,
                task@.preflight.requires_commands.len(),
            ),
            missing.deep_view() =~= first + lines,
            missing_paths(
                around@.style,
                task@.preflight.requires_paths,
                around@.paths,
                around@.home,
                k as nat,
            ) == Ok::<Seq<Text>, FailureModel>(lines),
        decreases required.len() - k,
    {
        match expand_path(around.style, required[k].as_str(), &around.home) {
            Err(failure) => {
                proof {
                    lemma_missing_paths_stops(
                        around@.style,
                        task@.preflight.requires_paths,
                        around@.paths,
                        around@.home,
                        (k + 1) as nat,
                        required.len() as nat,
                    );
                }
                return Err(failure);
            },
            Ok(path) => {
                if !is_found(&around.paths, k) {
                    let ghost before = missing.deep_view();
                    missing.push(concat2("Missing path: ", path.as_str()));
                    proof {
                        assert(missing.deep_view() =~= before.push("Missing path: "@ + path@));
                        lines = lines.push("Missing path: "@ + path@);
                    }
                }
            },
        }
        k += 1;
    }
    if missing.len() == 0 {
        return Ok(PreflightReport { status: None, messages: Vec::new() });
    }
    let ghost all = missing.deep_view();
    let status = match task.preflight.on_missing {
        MissingRequirementPolicy::Warn => OutcomeStatus::Warn,
        MissingRequirementPolicy::Fail => OutcomeStatus::Fail,
    };
    let mut messages: Vec<String> = Vec::new();
    messages.push(concat3("Preflight for ", task.label.as_str(), ":"));
    assert(messages.deep_view() =~= seq!["Preflight for "@ + task@.label + ":"@]);
    extend_texts(&mut messages, missing);
    let ghost before = messages.deep_view();
    messages.push(
        match task.preflight.on_missing {
            MissingRequirementPolicy::Warn =>
                "Task skipped with warning because required tools are unavailable.".to_owned(),
            MissingRequirementPolicy::Fail =>
                "Task cannot run because required tools are unavailable.".to_owned(),
        },
    );
    assert(messages.deep_view() =~= before.push(missing_verdict(task@.preflight.on_missing)));
    assert(messages.deep_view() =~= missing_report(task@, all).messages);
    Ok(PreflightReport { status: Some(status), messages })
}

/// Checks the requirements of a task against what was found on the machine.
pub fn inspect_preflight(task: &TaskDefinition, around: &Surroundings) -> (res: Result<
    PreflightReport,
    Failure,
>)
    ensures
        report_result(res) == preflight_outcome(task@, around@),
{
    evaluate_preflight(task, around)
}

/// A line for the terminal.
#[derive(Debug, PartialEq, Eq)]
pub struct ConsoleLine {
    pub stream: StreamKind,
    pub line: String,
}

/// The content of a [`ConsoleLine`].
#[verifier::ext_equal]
pub struct ConsoleModel {
    pub stream: StreamKind,
    pub line: Text,
}

impl View for ConsoleLine {
    type V = ConsoleModel;

    open spec fn view(&self) -> ConsoleModel {
        ConsoleModel { stream: self.stream, line: self.line@ }
    }
}

impl DeepView for ConsoleLine {
    type V = ConsoleModel;

    open spec fn deep_view(&self) -> ConsoleModel {
        self.view()
    }
}

/// A line on standard output.
pub open spec fn out_line(line: Text) -> ConsoleModel {
    ConsoleModel { stream: StreamKind::Stdout, line }
}

/// A line on standard error.
pub open spec fn err_line(line: Text) -> ConsoleModel {
    ConsoleModel { stream: StreamKind::Stderr, line }
}

fn push_line(lines: &mut Vec<ConsoleLine>, stream: StreamKind, line: String)
    ensures
        final(lines).deep_view() == old(lines).deep_view().push(
            ConsoleModel { stream, line: line@ },
        ),
{
    let ghost content = line@;
    lines.push(ConsoleLine { stream, line });
    assert(lines.deep_view() =~= old(lines).deep_view().push(
        ConsoleModel { stream, line: content },
    ));
}

/// The lines that announce a task.
pub open spec fn heading_lines(label: Text) -> Seq<ConsoleModel> {
    seq![out_line(""@), out_line("=== "@ + label + " ==="@)]
}

/// The lines that announce a task.
pub fn task_heading(label: &str) -> (res: Vec<ConsoleLine>)
    ensures
        res.deep_view() == heading_lines(label@),
{
    let mut res: Vec<ConsoleLine> = Vec::new();
    assert(res.deep_view() =~= Seq::empty());
    push_line(&mut res, StreamKind::Stdout, "".to_owned());
    push_line(&mut res, StreamKind::Stdout, concat3("=== ", label, " ==="));
    assert(res.deep_view() =~= heading_lines(label@));
    res
}

/// The lines that show a preflight report: its messages and, where the task
/// fails by it, a notice.
pub open spec fn preflight_lines(label: Text, report: ReportModel) -> Seq<ConsoleModel> {
    let messages = report.messages.map_values(|message: Text| out_line(message));
    if report.status == Some(OutcomeStatus::Fail) {
        messages.push(err_line(label + " failed during preflight."@))
    } else {
        messages
    }
}

/// The lines that show a preflight report.
pub fn preflight_console(label: &str, report: &PreflightReport) -> (res: Vec<ConsoleLine>)
    ensures
        res.deep_view() == preflight_lines(label@, report@),
{
    let mut res: Vec<ConsoleLine> = Vec::new();
    let ghost wanted = report@.messages.map_values(|message: Text| out_line(message));
    let mut i: usize = 0;
    while i < report.messages.len()
        invariant
            i <= report.messages.len(),
            wanted == report@.messages.map_values(|message: Text| out_line(message)),
            res.deep_view() =~= wanted.take(i as int),
        decreases report.messages.len() - i,
    {
        push_line(&mut res, StreamKind::Stdout, report.messages[i].clone());
        i += 1;
    }
    assert(wanted.take(wanted.len() as int) =~= wanted);
    match report.status {
        Some(OutcomeStatus::Fail) => {
            push_line(&mut res, StreamKind::Stderr, concat2(label, " failed during preflight."));
        },
        _ => {},
    }
    res
}

/// The lines that follow a task's process: a notice where it failed.
pub open spec fn exit_lines(label: Text, code: int) -> Seq<ConsoleModel> {
    if exit_status(code) == OutcomeStatus::Fail {
        seq![
            err_line(
                label + " failed (exit "@ + text::signed_decimal_text(code) + ")."@,
            ),
        ]
    } else {
        Seq::empty()
    }
}

/// The lines that follow a task's process.
pub fn exit_console(label: &str, code: i32) -> (res: Vec<ConsoleLine>)
    ensures
        res.deep_view() == exit_lines(label@, code as int),
{
    let mut res: Vec<ConsoleLine> = Vec::new();
    assert(res.deep_view() =~= Seq::empty());
    match classify_exit_code(code) {
        OutcomeStatus::Fail => {
            let mut line = concat2(label, " failed (exit ");
            line.append(signed_decimal(code).as_str());
            line.append(").");
            push_line(&mut res, StreamKind::Stderr, line);
        },
        _ => {},
    }
    assert(res.deep_view() =~= exit_lines(label@, code as int));
    res
}

/// The lines that show an event of an interactive run.
pub open spec fn event_lines(event: EventModel) -> Seq<ConsoleModel> {
    match event {
        EventModel::TaskStarted { task_id, label } => seq![out_line("==> "@ + label)],
        EventModel::OutputLine { task_id, stream, line } => seq![ConsoleModel { stream, line }],
        EventModel::TaskFinished { task_id, label, status } => seq![
            out_line(label + " finished: "@ + status_label(status)),
            out_line(""@),
        ],
    }
}

/// The lines that show an event of an interactive run.
pub fn event_console(event: &RunnerEvent) -> (res: Vec<ConsoleLine>)
    ensures
        res.deep_view() == event_lines(event@),
{
    let mut res: Vec<ConsoleLine> = Vec::new();
    assert(res.deep_view() =~= Seq::empty());
    match event {
        RunnerEvent::TaskStarted { task_id, label } => {
            push_line(&mut res, StreamKind::Stdout, concat2("==> ", label.as_str()));
        },
        RunnerEvent::OutputLine { task_id, stream, line } => {
            push_line(&mut res, *stream, line.clone());
        },
        RunnerEvent::TaskFinished { task_id, label, status } => {
            push_line(
                &mut res,
                StreamKind::Stdout,
                concat3(label.as_str(), " finished: ", status.label()),
            );
            push_line(&mut res, StreamKind::Stdout, "".to_owned());
        },
    }
    assert(res.deep_view() =~= event_lines(event@));
    res
}

/// How many of `outcomes` have this status.
pub open spec fn count_status(outcomes: Seq<OutcomeModel>, status: OutcomeStatus) -> nat
    decreases outcomes.len(),
{
    if outcomes.len() == 0 {
        0
    } else {
        count_status(outcomes.drop_last(), status) + if outcomes.last().status == status {
            1nat
        } else {
            0nat
        }
    }
}

/// The summary of a run with these outcomes.
pub open spec fn summary_of(outcomes: Seq<OutcomeModel>) -> SummaryModel {
    SummaryModel {
        outcomes,
        ok_count: count_status(outcomes, OutcomeStatus::Success),
        warn_count: count_status(outcomes, OutcomeStatus::Warn),
        fail_count: count_status(outcomes, OutcomeStatus::Fail),
    }
}

/// Every outcome is counted under exactly one status.
pub proof fn summary_counts_every_outcome(outcomes: Seq<OutcomeModel>)
    ensures
        summary_of(outcomes).ok_count + summary_of(outcomes).warn_count + summary_of(
            outcomes,
        ).fail_count == outcomes.len(),
    decreases outcomes.len(),
{
    if outcomes.len() > 0 {
        summary_counts_every_outcome(outcomes.drop_last());
    }
}

/// A report that lets a task run says nothing, and one that stops it names the
/// task first and gives the status that the task's policy asks for.
pub proof fn preflight_stops_exactly_on_missing_requirements(
    task: TaskModel,
    around: SurroundingsModel,
)
    ensures
        preflight_outcome(task, around) matches Ok(report) ==> {
            &&& report.status is None <==> report.messages.len() == 0
            &&& report.status is None <==> {
                &&& forall|i: int|
                    0 <= i < task.preflight.requires_commands.len() ==> #[trigger] found(
                        around.commands,
                        i,
                    )
                &&& forall|i: int|
                    0 <= i < task.preflight.requires_paths.len() ==> #[trigger] found(
                        around.paths,
                        i,
                    )
            }
            &&& report.status matches Some(status) ==> status == missing_status(
                task.preflight.on_missing,
            ) && report.messages[0] == "Preflight for "@ + task.label + ":"@
                && report.messages.last() == missing_verdict(task.preflight.on_missing)
        },
{
    let commands = task.preflight.requires_commands;
    let required = task.preflight.requires_paths;
    lemma_missing_commands(commands, around.commands, commands.len());
    lemma_missing_paths(around.style, required, around.paths, around.home, required.len());
}

proof fn lemma_missing_commands(commands: Seq<Text>, checks: Seq<bool>, count: nat)
    ensures
        missing_commands(commands, checks, count).len() == 0 <==> forall|i: int|
            0 <= i < count ==> #[trigger] found(checks, i),
    decreases count,
{
    if count > 0 {
        lemma_missing_commands(commands, checks, (count - 1) as nat);
        if missing_commands(commands, checks, count).len() > 0 && found(checks, count - 1) {
            let i = choose|i: int| 0 <= i < count - 1 && !#[trigger] found(checks, i);
            assert(!found(checks, i));
        }
    }
}

proof fn lemma_missing_paths(
    style: PathStyle,
    required: Seq<Text>,
    checks: Seq<bool>,
    home: Result<Text, Text>,
    count: nat,
)
    ensures
        missing_paths(style, required, checks, home, count) matches Ok(lines) ==> (lines.len() == 0
            <==> forall|i: int| 0 <= i < count ==> #[trigger] found(checks, i)),
    decreases count,
{
    if count > 0 {
        lemma_missing_paths(style, required, checks, home, (count - 1) as nat);
        match missing_paths(style, required, checks, home, count) {
            Ok(lines) => {
                if lines.len() > 0 && found(checks, count - 1) {
                    let i = choose|i: int| 0 <= i < count - 1 && !#[trigger] found(checks, i);
                    assert(!found(checks, i));
                }
            },
            Err(_) => {},
        }
    }
}

/// A variable that a task sets keeps the task's value; any other has the value
/// that the cockpit gives it.
pub proof fn task_settings_override_cockpit_settings(
    style: PathStyle,
    task: TaskModel,
    root: Text,
    options: RunOptions,
    name: Text,
)
    ensures
        variables::setting_of(task_command(style, task, root, options).env, name) == (
        match variables::setting_of(task.env, name) {
            Some(value) => Some(value),
            None => variables::setting_of(cockpit_env(task, root, options), name),
        }),
{
    lemma_setting_of_concat(cockpit_env(task, root, options), task.env, name);
}

proof fn lemma_setting_of_concat(first: Seq<(Text, Text)>, second: Seq<(Text, Text)>, name: Text)
    ensures
        variables::setting_of(first + second, name) == (match variables::setting_of(second, name) {
            Some(value) => Some(value),
            None => variables::setting_of(first, name),
        }),
    decreases second.len(),
{
    if second.len() == 0 {
        assert(first + second =~= first);
    } else {
        assert((first + second).last() == second.last());
        assert((first + second).drop_last() =~= first + second.drop_last());
        lemma_setting_of_concat(first, second.drop_last(), name);
    }
}

/// Every runtime flag reaches the task as `1` or `0`, unless the task sets the
/// variable itself.
pub proof fn runtime_flags_reach_the_task(
    style: PathStyle,
    task: TaskModel,
    root: Text,
    options: RunOptions,
)
    ensures
        ({
            let env = task_command(style, task, root, options).env;
            &&& variables::setting_of(task.env, "UC_DRY_RUN"@) is None ==> variables::setting_of(env, "UC_DRY_RUN"@)
                == Some(flag_text(options.dry_run))
            &&& variables::setting_of(task.env, "UC_VERBOSE"@) is None ==> variables::setting_of(env, "UC_VERBOSE"@)
                == Some(flag_text(options.verbose))
            &&& variables::setting_of(task.env, "UC_BREW_CLEANUP"@) is None ==> variables::setting_of(
                env,
                "UC_BREW_CLEANUP"@,
            ) == Some(flag_text(options.brew_cleanup))
            &&& variables::setting_of(task.env, "UC_NPM_AUDIT"@) is None ==> variables::setting_of(env, "UC_NPM_AUDIT"@)
                == Some(flag_text(options.npm_audit))
            &&& variables::setting_of(task.env, "UC_TASK_ID"@) is None ==> variables::setting_of(env, "UC_TASK_ID"@)
                == Some(task.id)
            &&& variables::setting_of(task.env, "UC_REPO_ROOT"@) is None ==> variables::setting_of(env, "UC_REPO_ROOT"@)
                == Some(root)
        }),
{
    let names = seq![
        "UC_REPO_ROOT"@,
        "UC_DRY_RUN"@,
        "UC_VERBOSE"@,
        "UC_BREW_CLEANUP"@,
        "UC_NPM_AUDIT"@,
        "UC_TASK_ID"@,
    ];
    let own = cockpit_env(task, root, options);
    reveal_strlit("UC_REPO_ROOT");
    reveal_strlit("UC_DRY_RUN");
    reveal_strlit("UC_VERBOSE");
    reveal_strlit("UC_BREW_CLEANUP");
    reveal_strlit("UC_NPM_AUDIT");
    reveal_strlit("UC_TASK_ID");
    assert(names.no_duplicates()) by {
        assert(names[0][3] == 'R' && names[1][3] == 'D' && names[2][3] == 'V' && names[3][3] == 'B'
            && names[4][3] == 'N' && names[5][3] == 'T');
    }
    assert forall|i: int| 0 <= i < 6 implies variables::setting_of(own, #[trigger] names[i]) == Some(own[i].1) by {
        lemma_setting_of_unique(own, i);
    }
    assert(variables::setting_of(own, names[0]) == Some(own[0].1));
    assert(variables::setting_of(own, names[1]) == Some(own[1].1));
    assert(variables::setting_of(own, names[2]) == Some(own[2].1));
    assert(variables::setting_of(own, names[3]) == Some(own[3].1));
    assert(variables::setting_of(own, names[4]) == Some(own[4].1));
    assert(variables::setting_of(own, names[5]) == Some(own[5].1));
    task_settings_override_cockpit_settings(style, task, root, options, "UC_REPO_ROOT"@);
    task_settings_override_cockpit_settings(style, task, root, options, "UC_DRY_RUN"@);
    task_settings_override_cockpit_settings(style, task, root, options, "UC_VERBOSE"@);
    task_settings_override_cockpit_settings(style, task, root, options, "UC_BREW_CLEANUP"@);
    task_settings_override_cockpit_settings(style, task, root, options, "UC_NPM_AUDIT"@);
    task_settings_override_cockpit_settings(style, task, root, options, "UC_TASK_ID"@);
}

proof fn lemma_setting_of_unique(env: Seq<(Text, Text)>, i: int)
    requires
        0 <= i < env.len(),
        forall|j: int| 0 <= j < env.len() && j != i ==> (#[trigger] env[j]).0 != env[i].0,
    ensures
        variables::setting_of(env, env[i].0) == Some(env[i].1),
    decreases env.len(),
{
    if i < env.len() - 1 {
        let init = env.drop_last();
        assert(env.last() == env[env.len() - 1]);
        assert forall|j: int| 0 <= j < init.len() && j != i implies (#[trigger] init[j]).0
            != init[i].0 by {
            assert(init[j] == env[j]);
        }
        lemma_setting_of_unique(init, i);
    }
}

} // verus!

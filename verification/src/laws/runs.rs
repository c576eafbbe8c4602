//! What becomes of the tasks of a run, from the check before to the summary after.

use crate::catalog::{MissingRequirementPolicy, RunnerModel, TaskModel};
use crate::failure::FailureModel;
use crate::paths;
use crate::paths::PathStyle;
use crate::runner;
use crate::runner::{
    ConsoleModel, EventModel, LookupModel, OutcomeModel, OutcomeStatus, ReportModel, RunOptions,
    StreamKind, SummaryModel, SurroundingsModel,
};
use crate::session;
use crate::session::{InputModel, PhaseModel, RunModel};
use crate::text;
use crate::text::Text;
use vstd::prelude::*;

verus! {

/// A task succeeded exactly where its process ended with 0, asks for attention exactly
/// where it ended with 10, and failed exactly where it ended with anything else.
pub proof fn exit_codes_tell_how_a_task_ended(code: int)
    ensures
        runner::exit_status(code) == OutcomeStatus::Success <==> code == 0,
        runner::exit_status(code) == OutcomeStatus::Warn <==> code == 10,
        runner::exit_status(code) == OutcomeStatus::Fail <==> code != 0 && code != 10,
{
}

/// A status is shown as `OK`, `WARN` or `FAIL`.
pub proof fn statuses_have_names()
    ensures
        runner::status_label(OutcomeStatus::Success) == "OK"@,
        runner::status_label(OutcomeStatus::Warn) == "WARN"@,
        runner::status_label(OutcomeStatus::Fail) == "FAIL"@,
{
}

/// The process of a command task is that command with exactly the declared arguments,
/// all of them and in order.
pub proof fn command_tasks_run_their_command(
    style: PathStyle,
    task: TaskModel,
    root: Text,
    options: RunOptions,
)
    ensures
        task.runner matches RunnerModel::Command { program, args } ==> {
            let process = runner::task_command(style, task, root, options);
            &&& process.program == program
            &&& process.args.len() == args.len()
            &&& forall|i: int| 0 <= i < args.len() ==> #[trigger] process.args[i] == args[i]
        },
{
}

/// The process of a script task is its shell with the script's path below the root and
/// then exactly the declared arguments, all of them and in order.
pub proof fn script_tasks_run_their_script(
    style: PathStyle,
    task: TaskModel,
    root: Text,
    options: RunOptions,
)
    ensures
        task.runner matches RunnerModel::Script { path, shell, args } ==> {
            let process = runner::task_command(style, task, root, options);
            &&& process.program == shell
            &&& process.args.len() == args.len() + 1
            &&& process.args[0] == paths::joined_path(style, root, path)
            &&& forall|i: int| 0 <= i < args.len() ==> process.args[i + 1] == #[trigger] args[i]
        },
{
}

/// The process of a task runs in the root directory. It is given the root, each flag
/// as `1` or `0` and the task's id, and then the task's own variables in order.
pub proof fn tasks_run_in_the_root_with_their_variables(
    style: PathStyle,
    task: TaskModel,
    root: Text,
    options: RunOptions,
)
    ensures
        ({
            let process = runner::task_command(style, task, root, options);
            &&& process.current_dir == root
            &&& process.env.len() == 6 + task.env.len()
            &&& process.env[0] == ("UC_REPO_ROOT"@, root)
            &&& process.env[1] == ("UC_DRY_RUN"@, if options.dry_run {
                "1"@
            } else {
                "0"@
            })
            &&& process.env[2] == ("UC_VERBOSE"@, if options.verbose {
                "1"@
            } else {
                "0"@
            })
            &&& process.env[3] == ("UC_BREW_CLEANUP"@, if options.brew_cleanup {
                "1"@
            } else {
                "0"@
            })
            &&& process.env[4] == ("UC_NPM_AUDIT"@, if options.npm_audit {
                "1"@
            } else {
                "0"@
            })
            &&& process.env[5] == ("UC_TASK_ID"@, task.id)
            &&& forall|i: int|
                0 <= i < task.env.len() ==> process.env[6 + i] == #[trigger] task.env[i]
        }),
{
}

/// `~` is the home directory; `~/` and `$HOME/` before a path put it below the home
/// directory. These fail where the home directory is unknown. Every other path stays
/// as it is.
pub proof fn home_directories_are_filled_in(
    style: PathStyle,
    path: Text,
    rest: Text,
    home: Text,
    reason: Text,
)
    ensures
        runner::expanded_path(style, "~"@, Ok(home)) == Ok::<Text, FailureModel>(home),
        runner::expanded_path(style, "~/"@ + rest, Ok(home)) == Ok::<Text, FailureModel>(
            paths::joined_path(style, home, rest),
        ),
        runner::expanded_path(style, "$HOME/"@ + rest, Ok(home)) == Ok::<Text, FailureModel>(
            paths::joined_path(style, home, rest),
        ),
        ({
            let unknown = Err::<Text, FailureModel>(
                FailureModel { context: "HOME is not set"@, cause: Some(reason) },
            );
            &&& runner::expanded_path(style, "~"@, Err(reason)) == unknown
            &&& runner::expanded_path(style, "~/"@ + rest, Err(reason)) == unknown
            &&& runner::expanded_path(style, "$HOME/"@ + rest, Err(reason)) == unknown
        }),
        path != "~"@ && !("~/"@.is_prefix_of(path)) && !("$HOME/"@.is_prefix_of(path)) ==> {
            &&& runner::expanded_path(style, path, Ok(home)) == Ok::<Text, FailureModel>(path)
            &&& runner::expanded_path(style, path, Err(reason)) == Ok::<Text, FailureModel>(path)
        },
{
    reveal_strlit("~");
    reveal_strlit("~/");
    reveal_strlit("$HOME/");
    let below = "~/"@ + rest;
    let under = "$HOME/"@ + rest;
    assert(below.len() >= 2 && below[1] == '/');
    assert("~/"@.is_prefix_of(below));
    assert(below.skip(2) =~= rest);
    assert(under[0] == '$' && under.len() >= 6);
    assert(!("~/"@.is_prefix_of(under)));
    assert("$HOME/"@.is_prefix_of(under));
    assert(under.skip(6) =~= rest);
}

/// A command with the separator of paths in it is a path, and any other is looked for
/// in the directories of the search path in order: under Unix by its name, under
/// Windows by its name and then as an executable file. Without a search path it is
/// looked for nowhere.
pub proof fn commands_are_looked_for_in_the_search_path(command: Text, dirs: Seq<Text>)
    ensures
        command.contains('/') ==> runner::lookup_of(PathStyle::Unix, command, Some(dirs))
            == LookupModel::Exists(command) && runner::lookup_of(PathStyle::Unix, command, None)
            == LookupModel::Exists(command),
        command.contains('\\') ==> runner::lookup_of(PathStyle::Windows, command, Some(dirs))
            == LookupModel::Exists(command) && runner::lookup_of(PathStyle::Windows, command, None)
            == LookupModel::Exists(command),
        !command.contains('/') ==> {
            &&& runner::lookup_of(PathStyle::Unix, command, None) == LookupModel::AnyFile(
                Seq::empty(),
            )
            &&& runner::lookup_of(PathStyle::Unix, command, Some(dirs)) matches
                LookupModel::AnyFile(candidates) && candidates.len() == dirs.len() && forall|i: int|
                0 <= i < dirs.len() ==> #[trigger] candidates[i] == paths::joined_path(
                    PathStyle::Unix,
                    dirs[i],
                    command,
                )
        },
        !command.contains('\\') ==> {
            &&& runner::lookup_of(PathStyle::Windows, command, None) == LookupModel::AnyFile(
                Seq::empty(),
            )
            &&& runner::lookup_of(PathStyle::Windows, command, Some(dirs)) matches
                LookupModel::AnyFile(candidates) && candidates.len() == 2 * dirs.len() && forall|
                i: int,
            |
                0 <= i < dirs.len() ==> candidates[2 * i] == paths::joined_path(
                    PathStyle::Windows,
                    #[trigger] dirs[i],
                    command,
                ) && candidates[2 * i + 1] == paths::joined_path(
                    PathStyle::Windows,
                    dirs[i],
                    command + ".exe"@,
                )
        },
{
    lemma_candidates(command, dirs);
}

proof fn lemma_candidates(command: Text, dirs: Seq<Text>)
    ensures
        ({
            let plain = runner::candidates_in(PathStyle::Unix, dirs, command);
            let both = runner::candidates_in(PathStyle::Windows, dirs, command);
            &&& plain.len() == dirs.len()
            &&& forall|i: int|
                0 <= i < dirs.len() ==> #[trigger] plain[i] == paths::joined_path(
                    PathStyle::Unix,
                    dirs[i],
                    command,
                )
            &&& both.len() == 2 * dirs.len()
            &&& forall|i: int|
                0 <= i < dirs.len() ==> both[2 * i] == paths::joined_path(
                    PathStyle::Windows,
                    #[trigger] dirs[i],
                    command,
                ) && both[2 * i + 1] == paths::joined_path(
                    PathStyle::Windows,
                    dirs[i],
                    command + ".exe"@,
                )
        }),
    decreases dirs.len(),
{
    if dirs.len() > 0 {
        let init = dirs.drop_last();
        lemma_candidates(command, init);
        assert forall|i: int| 0 <= i < init.len() implies #[trigger] dirs[i] == init[i] by {}
        assert(dirs[dirs.len() - 1] == dirs.last());
    }
}

/// The check at position `i` was made and went well.
pub open spec fn is_met(checks: Seq<bool>, i: int) -> bool {
    0 <= i < checks.len() && checks[i]
}

/// `at` lists the positions below `count` that are not met, ascending.
pub open spec fn lists_unmet(at: Seq<int>, checks: Seq<bool>, count: int) -> bool {
    &&& forall|i: int, j: int| 0 <= i < j < at.len() ==> #[trigger] at[i] < #[trigger] at[j]
    &&& forall|p: int| #[trigger] at.contains(p) <==> 0 <= p < count && !is_met(checks, p)
}

proof fn lemma_lists_unmet_next(at: Seq<int>, checks: Seq<bool>, count: int)
    requires
        count >= 0,
        lists_unmet(at, checks, count),
    ensures
        is_met(checks, count) ==> lists_unmet(at, checks, count + 1),
        !is_met(checks, count) ==> lists_unmet(at.push(count), checks, count + 1),
{
    if !is_met(checks, count) {
        let more = at.push(count);
        assert forall|i: int, j: int| 0 <= i < j < more.len() implies #[trigger] more[i]
            < #[trigger] more[j] by {
            assert(at.contains(at[i]));
        }
        assert forall|p: int| #[trigger] more.contains(p) <==> 0 <= p < count + 1 && !is_met(
            checks,
            p,
        ) by {
            if more.contains(p) {
                let k = choose|k: int| 0 <= k < more.len() && more[k] == p;
                if k < at.len() {
                    assert(at[k] == p);
                    assert(at.contains(p));
                }
            }
            if 0 <= p < count + 1 && !is_met(checks, p) {
                if p < count {
                    assert(at.contains(p));
                    let k = choose|k: int| 0 <= k < at.len() && at[k] == p;
                    assert(more[k] == p);
                } else {
                    assert(more.last() == p);
                }
            }
        }
    } else {
        assert forall|p: int| #[trigger] at.contains(p) <==> 0 <= p < count + 1 && !is_met(
            checks,
            p,
        ) by {}
    }
}

proof fn lemma_missing_command_lines(commands: Seq<Text>, checks: Seq<bool>, count: nat) -> (at: Seq<
    int,
>)
    requires
        count <= commands.len(),
    ensures
        lists_unmet(at, checks, count as int),
        runner::missing_commands(commands, checks, count).len() == at.len(),
        forall|k: int|
            0 <= k < at.len() ==> runner::missing_commands(commands, checks, count)[k]
                == "Missing command: "@ + commands[#[trigger] at[k]],
    decreases count,
{
    if count == 0 {
        Seq::empty()
    } else {
        let before = lemma_missing_command_lines(commands, checks, (count - 1) as nat);
        lemma_lists_unmet_next(before, checks, count - 1);
        if is_met(checks, count - 1) {
            assert(runner::found(checks, count - 1));
            before
        } else {
            assert(!runner::found(checks, count - 1));
            let at = before.push(count - 1);
            assert forall|k: int| 0 <= k < at.len() implies runner::missing_commands(
                commands,
                checks,
                count,
            )[k] == "Missing command: "@ + commands[#[trigger] at[k]] by {
                if k < before.len() {
                    assert(at[k] == before[k]);
                }
            }
            at
        }
    }
}

proof fn lemma_missing_path_lines(
    style: PathStyle,
    required: Seq<Text>,
    checks: Seq<bool>,
    home: Result<Text, Text>,
    count: nat,
) -> (at: Seq<int>)
    requires
        count <= required.len(),
        runner::missing_paths(style, required, checks, home, count) is Ok,
    ensures
        lists_unmet(at, checks, count as int),
        runner::missing_paths(style, required, checks, home, count)->Ok_0.len() == at.len(),
        forall|k: int|
            0 <= k < at.len() ==> runner::missing_paths(
                style,
                required,
                checks,
                home,
                count,
            )->Ok_0[k] == "Missing path: "@ + runner::expanded_path(
                style,
                required[#[trigger] at[k]],
                home,
            )->Ok_0,
    decreases count,
{
    if count == 0 {
        Seq::empty()
    } else {
        let before = lemma_missing_path_lines(style, required, checks, home, (count - 1) as nat);
        lemma_lists_unmet_next(before, checks, count - 1);
        if is_met(checks, count - 1) {
            assert(runner::found(checks, count - 1));
            before
        } else {
            assert(!runner::found(checks, count - 1));
            let at = before.push(count - 1);
            assert forall|k: int| 0 <= k < at.len() implies runner::missing_paths(
                style,
                required,
                checks,
                home,
                count,
            )->Ok_0[k] == "Missing path: "@ + runner::expanded_path(
                style,
                required[#[trigger] at[k]],
                home,
            )->Ok_0 by {
                if k < before.len() {
                    assert(at[k] == before[k]);
                }
            }
            at
        }
    }
}

proof fn lemma_missing_paths_fail(
    style: PathStyle,
    required: Seq<Text>,
    checks: Seq<bool>,
    home: Result<Text, Text>,
    count: nat,
)
    requires
        count <= required.len(),
    ensures
        runner::missing_paths(style, required, checks, home, count) is Err <==> exists|k: int|
            0 <= k < count && runner::expanded_path(style, #[trigger] required[k], home) is Err,
        runner::missing_paths(style, required, checks, home, count) matches Err(failure)
            ==> home matches Err(reason) && failure == (FailureModel {
            context: "HOME is not set"@,
            cause: Some(reason),
        }),
    decreases count,
{
    if count > 0 {
        lemma_missing_paths_fail(style, required, checks, home, (count - 1) as nat);
        if runner::expanded_path(style, required[count - 1], home) is Err {
            assert(home is Err);
        }
    }
}

/// Every required command was found and every required path exists.
pub open spec fn nothing_is_missing(task: TaskModel, around: SurroundingsModel) -> bool {
    &&& forall|i: int|
        0 <= i < task.preflight.requires_commands.len() ==> #[trigger] is_met(around.commands, i)
    &&& forall|i: int|
        0 <= i < task.preflight.requires_paths.len() ==> #[trigger] is_met(around.paths, i)
}

proof fn lemma_nothing_unmet(at: Seq<int>, checks: Seq<bool>, count: int)
    requires
        lists_unmet(at, checks, count),
    ensures
        at.len() == 0 <==> forall|i: int| 0 <= i < count ==> #[trigger] is_met(checks, i),
{
    if at.len() > 0 {
        assert(at.contains(at[0]));
        assert(!is_met(checks, at[0]));
    } else {
        assert forall|i: int| 0 <= i < count implies #[trigger] is_met(checks, i) by {
            if !is_met(checks, i) {
                assert(at.contains(i));
            }
        }
    }
}

/// A check cannot be made exactly where the home directory is unknown and a required
/// path is to be put below it.
pub proof fn checks_fail_exactly_without_a_home_directory(
    task: TaskModel,
    around: SurroundingsModel,
)
    ensures
        runner::preflight_outcome(task, around) is Err <==> around.home is Err && exists|k: int|
            0 <= k < task.preflight.requires_paths.len() && (
            #[trigger] task.preflight.requires_paths[k] == "~"@ || "~/"@.is_prefix_of(
                task.preflight.requires_paths[k],
            ) || "$HOME/"@.is_prefix_of(task.preflight.requires_paths[k])),
        runner::preflight_outcome(task, around) matches Err(failure) ==> failure == (FailureModel {
            context: "HOME is not set"@,
            cause: Some(around.home->Err_0),
        }),
{
    let required = task.preflight.requires_paths;
    lemma_missing_paths_fail(around.style, required, around.paths, around.home, required.len());
    assert forall|k: int| 0 <= k < required.len() implies (runner::expanded_path(
        around.style,
        #[trigger] required[k],
        around.home,
    ) is Err <==> around.home is Err && (required[k] == "~"@ || "~/"@.is_prefix_of(required[k])
        || "$HOME/"@.is_prefix_of(required[k]))) by {}
}

/// A task is let through exactly where nothing that it requires is missing. Else it gets
/// a warning or fails, as it declares.
pub proof fn checks_stop_tasks_as_they_declare(task: TaskModel, around: SurroundingsModel)
    ensures
        runner::preflight_outcome(task, around) matches Ok(report) ==> {
            &&& report.status is None <==> nothing_is_missing(task, around)
            &&& report.status == Some(OutcomeStatus::Warn) <==> !nothing_is_missing(task, around)
                && task.preflight.on_missing == MissingRequirementPolicy::Warn
            &&& report.status == Some(OutcomeStatus::Fail) <==> !nothing_is_missing(task, around)
                && task.preflight.on_missing == MissingRequirementPolicy::Fail
        },
{
    let commands = task.preflight.requires_commands;
    let required = task.preflight.requires_paths;
    match runner::preflight_outcome(task, around) {
        Ok(report) => {
            let a = lemma_missing_command_lines(commands, around.commands, commands.len());
            let b = lemma_missing_path_lines(
                around.style,
                required,
                around.paths,
                around.home,
                required.len(),
            );
            lemma_nothing_unmet(a, around.commands, commands.len() as int);
            lemma_nothing_unmet(b, around.paths, required.len() as int);
        },
        Err(_) => {},
    }
}

/// A task that is let through has an empty report. Any other has a report with the
/// task's label, a line for each command and then each path that is missing, in the
/// order in which the task lists them, and what becomes of the task.
pub proof fn checks_report_everything_that_is_missing(task: TaskModel, around: SurroundingsModel)
    ensures
        runner::preflight_outcome(task, around) matches Ok(report) ==> {
            &&& nothing_is_missing(task, around) ==> report.messages.len() == 0
            &&& !nothing_is_missing(task, around) ==> exists|a: Seq<int>, b: Seq<int>|
                lists_unmet(
                    a,
                    around.commands,
                    task.preflight.requires_commands.len() as int,
                ) && lists_unmet(b, around.paths, task.preflight.requires_paths.len() as int)
                    && #[trigger] reports_missing(task, around, report.messages, a, b)
        },
{
    let commands = task.preflight.requires_commands;
    let required = task.preflight.requires_paths;
    match runner::preflight_outcome(task, around) {
        Ok(report) => {
            let a = lemma_missing_command_lines(commands, around.commands, commands.len());
            let b = lemma_missing_path_lines(
                around.style,
                required,
                around.paths,
                around.home,
                required.len(),
            );
            lemma_nothing_unmet(a, around.commands, commands.len() as int);
            lemma_nothing_unmet(b, around.paths, required.len() as int);
            if !nothing_is_missing(task, around) {
                let first = runner::missing_commands(commands, around.commands, commands.len());
                let second = runner::missing_paths(
                    around.style,
                    required,
                    around.paths,
                    around.home,
                    required.len(),
                )->Ok_0;
                let messages = report.messages;
                assert(messages.len() == a.len() + b.len() + 2);
                assert forall|k: int| 0 <= k < a.len() implies messages[1 + k]
                    == "Missing command: "@ + commands[#[trigger] a[k]] by {
                    assert(messages[1 + k] == first[k]);
                }
                assert forall|k: int| 0 <= k < b.len() implies messages[1 + a.len() + k]
                    == "Missing path: "@ + runner::expanded_path(
                    around.style,
                    required[#[trigger] b[k]],
                    around.home,
                )->Ok_0 by {
                    assert(messages[1 + a.len() + k] == second[k]);
                }
                assert(reports_missing(task, around, messages, a, b));
            }
        },
        Err(_) => {},
    }
}

/// The messages of a report on the missing commands at `a` and the missing paths at `b`.
pub open spec fn reports_missing(
    task: TaskModel,
    around: SurroundingsModel,
    messages: Seq<Text>,
    a: Seq<int>,
    b: Seq<int>,
) -> bool {
    &&& messages.len() == a.len() + b.len() + 2
    &&& messages[0] == "Preflight for "@ + task.label + ":"@
    &&& forall|k: int|
        0 <= k < a.len() ==> messages[1 + k] == "Missing command: "@
            + task.preflight.requires_commands[#[trigger] a[k]]
    &&& forall|k: int|
        0 <= k < b.len() ==> messages[1 + a.len() + k] == "Missing path: "@ + runner::expanded_path(
            around.style,
            task.preflight.requires_paths[#[trigger] b[k]],
            around.home,
        )->Ok_0
    &&& task.preflight.on_missing == MissingRequirementPolicy::Warn ==> messages.last()
        == "Task skipped with warning because required tools are unavailable."@
    &&& task.preflight.on_missing == MissingRequirementPolicy::Fail ==> messages.last()
        == "Task cannot run because required tools are unavailable."@
}

/// `after` has one more outcome than `before`: the current task ended with `status`. It
/// turns to the next task, if there is one, and else it is finished.
pub open spec fn has_recorded(before: RunModel, status: OutcomeStatus, after: RunModel) -> bool {
    let n = before.outcomes.len() as int;
    &&& after.tasks == before.tasks
    &&& after.root == before.root
    &&& after.options == before.options
    &&& after.style == before.style
    &&& after.outcomes.len() == n + 1
    &&& forall|i: int| 0 <= i < n ==> #[trigger] after.outcomes[i] == before.outcomes[i]
    &&& after.outcomes[n].id == before.tasks[n].id
    &&& after.outcomes[n].label == before.tasks[n].label
    &&& after.outcomes[n].status == status
    &&& after.phase == if n + 1 < before.tasks.len() {
        PhaseModel::Checking
    } else {
        PhaseModel::Finished
    }
}

/// `events` from position `from` on announce that the current task ended with `status`
/// and that the next one starts, if there is one.
pub open spec fn announces_end(
    before: RunModel,
    status: OutcomeStatus,
    events: Seq<EventModel>,
    from: int,
) -> bool {
    let n = before.outcomes.len() as int;
    &&& events[from] == (EventModel::TaskFinished {
        task_id: before.tasks[n].id,
        label: before.tasks[n].label,
        status,
    })
    &&& n + 1 < before.tasks.len() ==> events.len() == from + 2 && events[from + 1] == (
    EventModel::TaskStarted { task_id: before.tasks[n + 1].id, label: before.tasks[n + 1].label })
    &&& n + 1 >= before.tasks.len() ==> events.len() == from + 1
}

/// When a process ends with an exit code, its task is recorded as a success for 0, with
/// a warning for 10 and as a failure for every other code. A process that ends without
/// an exit code failed.
pub proof fn processes_decide_how_their_tasks_end(m: RunModel, code: i32)
    requires
        m.phase is Executing,
        m.outcomes.len() < m.tasks.len(),
    ensures
        ({
            let (after, events) = m.resume(InputModel::Exited(Ok(Some(code))));
            &&& code == 0 ==> has_recorded(m, OutcomeStatus::Success, after) && announces_end(
                m,
                OutcomeStatus::Success,
                events,
                0,
            )
            &&& code == 10 ==> has_recorded(m, OutcomeStatus::Warn, after) && announces_end(
                m,
                OutcomeStatus::Warn,
                events,
                0,
            )
            &&& code != 0 && code != 10 ==> has_recorded(m, OutcomeStatus::Fail, after)
                && announces_end(m, OutcomeStatus::Fail, events, 0)
        }),
        ({
            let (after, events) = m.resume(InputModel::Exited(Ok(None)));
            has_recorded(m, OutcomeStatus::Fail, after) && announces_end(
                m,
                OutcomeStatus::Fail,
                events,
                0,
            )
        }),
{
}

/// Where a process cannot be run, the run breaks off with that failure and records
/// nothing more.
pub proof fn runs_break_off_where_a_process_cannot_be_run(m: RunModel, failure: FailureModel)
    requires
        m.phase is Executing,
    ensures
        ({
            let (after, events) = m.resume(InputModel::Exited(Err(failure)));
            &&& after == RunModel { phase: PhaseModel::Aborted(failure), ..m }
            &&& events.len() == 0
        }),
{
}

/// A line of a process is handed on as it is, with its stream and the id of the task,
/// and changes nothing.
pub proof fn output_is_handed_on(m: RunModel, stream: StreamKind, line: Text)
    requires
        m.phase is Executing,
    ensures
        ({
            let (after, events) = m.resume(InputModel::Output(stream, line));
            &&& after == m
            &&& events.len() == 1
            &&& events[0] == (EventModel::OutputLine {
                task_id: m.tasks[m.outcomes.len() as int].id,
                stream,
                line,
            })
        }),
{
}

/// A run takes note only of what it waits for.
pub proof fn runs_ignore_what_they_do_not_wait_for(m: RunModel, input: InputModel)
    ensures
        m.phase is Checking && !(input is Found) ==> m.resume(input) == (
            m,
            Seq::<EventModel>::empty(),
        ),
        m.phase is Executing && input is Found ==> m.resume(input) == (
            m,
            Seq::<EventModel>::empty(),
        ),
        m.phase is Finished || m.phase is Aborted ==> m.resume(input) == (
            m,
            Seq::<EventModel>::empty(),
        ),
{
}

/// A task whose check finds nothing missing is executed. One that is stopped is recorded
/// with the status of its report, whose lines are told before on standard error. A
/// check that cannot be made breaks the run off.
pub proof fn checks_decide_what_becomes_of_a_task(m: RunModel, around: SurroundingsModel)
    requires
        m.phase is Checking,
        m.outcomes.len() < m.tasks.len(),
    ensures
        ({
            let task = m.tasks[m.outcomes.len() as int];
            let (after, events) = m.resume(InputModel::Found(around));
            match runner::preflight_outcome(task, around) {
                Err(failure) => after == (RunModel { phase: PhaseModel::Aborted(failure), ..m })
                    && events.len() == 0,
                Ok(report) => {
                    &&& events.len() >= report.messages.len()
                    &&& forall|i: int|
                        0 <= i < report.messages.len() ==> #[trigger] events[i] == (
                        EventModel::OutputLine {
                            task_id: task.id,
                            stream: StreamKind::Stderr,
                            line: report.messages[i],
                        })
                    &&& report.status is None ==> events.len() == report.messages.len() && after
                        == (RunModel {
                        phase: PhaseModel::Executing(
                            runner::task_command(m.style, task, m.root, m.options),
                        ),
                        ..m
                    })
                    &&& report.status matches Some(status) ==> has_recorded(m, status, after)
                        && announces_end(m, status, events, report.messages.len() as int)
                },
            }
        }),
{
}

/// A run begins with its first task, which it announces. Without tasks it is finished
/// at once.
pub proof fn runs_begin_with_their_first_task(
    style: PathStyle,
    root: Text,
    tasks: Seq<TaskModel>,
    options: RunOptions,
)
    ensures
        ({
            let (m, events) = session::run_of(style, root, tasks, options, Seq::empty());
            &&& m.style == style && m.root == root && m.tasks == tasks && m.options == options
            &&& m.outcomes.len() == 0
            &&& tasks.len() > 0 ==> m.phase == PhaseModel::Checking && events.len() == 1
                && events[0] == (EventModel::TaskStarted {
                task_id: tasks[0].id,
                label: tasks[0].label,
            })
            &&& tasks.len() == 0 ==> m.phase == PhaseModel::Finished && events.len() == 0
        }),
{
}

/// A run takes note of one input after another, and keeps all events in order.
pub proof fn runs_go_on_step_by_step(
    style: PathStyle,
    root: Text,
    tasks: Seq<TaskModel>,
    options: RunOptions,
    inputs: Seq<InputModel>,
    input: InputModel,
)
    ensures
        ({
            let (before, told) = session::run_of(style, root, tasks, options, inputs);
            let (after, more) = before.resume(input);
            session::run_of(style, root, tasks, options, inputs.push(input)) == (after, told + more)
        }),
{
    assert(inputs.push(input).drop_last() =~= inputs);
    let (begun, first) = session::fresh_run(style, root, tasks, options).next_task();
    let (m, events) = session::steps(begun, inputs);
    let (after, more) = m.resume(input);
    assert(first + (events + more) =~= first + events + more);
}

/// The outcomes with this status.
pub open spec fn ended_with(outcomes: Seq<OutcomeModel>, status: OutcomeStatus) -> Seq<
    OutcomeModel,
> {
    outcomes.filter(|outcome: OutcomeModel| outcome.status == status)
}

proof fn lemma_count_status(outcomes: Seq<OutcomeModel>, status: OutcomeStatus)
    ensures
        runner::count_status(outcomes, status) == ended_with(outcomes, status).len(),
        runner::count_status(outcomes, status) > 0 <==> exists|i: int|
            0 <= i < outcomes.len() && (#[trigger] outcomes[i]).status == status,
    decreases outcomes.len(),
{
    reveal(Seq::filter);
    if outcomes.len() > 0 {
        let init = outcomes.drop_last();
        lemma_count_status(init, status);
        assert forall|i: int| 0 <= i < init.len() implies #[trigger] init[i] == outcomes[i] by {}
        if outcomes.last().status == status {
            assert(outcomes[outcomes.len() - 1].status == status);
        } else if exists|i: int|
            0 <= i < outcomes.len() && (#[trigger] outcomes[i]).status == status {
            let i = choose|i: int|
                0 <= i < outcomes.len() && (#[trigger] outcomes[i]).status == status;
            assert(init[i].status == status);
        }
        if runner::count_status(init, status) > 0 {
            let i = choose|i: int| 0 <= i < init.len() && (#[trigger] init[i]).status == status;
            assert(outcomes[i].status == status);
        }
    }
}

/// A summary keeps the outcomes and counts under each status those that have it.
pub proof fn summaries_count_what_happened(outcomes: Seq<OutcomeModel>)
    ensures
        runner::summary_of(outcomes).outcomes == outcomes,
        runner::summary_of(outcomes).ok_count == ended_with(outcomes, OutcomeStatus::Success).len(),
        runner::summary_of(outcomes).warn_count == ended_with(outcomes, OutcomeStatus::Warn).len(),
        runner::summary_of(outcomes).fail_count == ended_with(outcomes, OutcomeStatus::Fail).len(),
        runner::summary_of(outcomes).ok_count > 0 <==> exists|i: int|
            0 <= i < outcomes.len() && (#[trigger] outcomes[i]).status == OutcomeStatus::Success,
        runner::summary_of(outcomes).warn_count > 0 <==> exists|i: int|
            0 <= i < outcomes.len() && (#[trigger] outcomes[i]).status == OutcomeStatus::Warn,
        runner::summary_of(outcomes).fail_count > 0 <==> exists|i: int|
            0 <= i < outcomes.len() && (#[trigger] outcomes[i]).status == OutcomeStatus::Fail,
{
    lemma_count_status(outcomes, OutcomeStatus::Success);
    lemma_count_status(outcomes, OutcomeStatus::Warn);
    lemma_count_status(outcomes, OutcomeStatus::Fail);
}

/// A finished run results in a summary of its outcomes, one that broke off in the
/// failure, and any other run has no result yet.
pub proof fn runs_result_in_their_outcomes(m: RunModel)
    ensures
        m.phase is Finished ==> {
            &&& m.result() matches Some(Ok(summary))
            &&& summary.outcomes == m.outcomes
            &&& summary.ok_count == ended_with(m.outcomes, OutcomeStatus::Success).len()
            &&& summary.warn_count == ended_with(m.outcomes, OutcomeStatus::Warn).len()
            &&& summary.fail_count == ended_with(m.outcomes, OutcomeStatus::Fail).len()
        },
        m.phase matches PhaseModel::Aborted(failure) ==> m.result() == Some(
            Err::<SummaryModel, FailureModel>(failure),
        ),
        m.phase is Checking || m.phase is Executing ==> m.result() is None,
{
    summaries_count_what_happened(m.outcomes);
}

/// A process that cannot be started is reported with its task's id and the reason.
pub proof fn failed_starts_name_the_task(task: TaskModel, reason: Text)
    ensures
        session::start_failure(task, reason).context == "failed to execute task "@ + task.id,
        session::start_failure(task, reason).cause == Some(reason),
{
}

/// A process that cannot be waited for is reported with the reason.
pub proof fn failed_waits_give_the_reason(reason: Text)
    ensures
        session::wait_failure(reason).context == "failed to wait on task process"@,
        session::wait_failure(reason).cause == Some(reason),
{
}

/// Before a task is checked, an empty line and a heading with its label are shown. The
/// lines of its report follow on standard output, and where it fails by the check, a
/// notice on standard error.
pub proof fn the_terminal_shows_every_check(m: RunModel, around: SurroundingsModel)
    requires
        m.phase is Checking,
    ensures
        ({
            let task = m.tasks[m.outcomes.len() as int];
            let lines = m.console(InputModel::Found(around));
            &&& lines.len() >= 2
            &&& lines[0] == (ConsoleModel { stream: StreamKind::Stdout, line: ""@ })
            &&& lines[1] == (ConsoleModel {
                stream: StreamKind::Stdout,
                line: "=== "@ + task.label + " ==="@,
            })
            &&& match runner::preflight_outcome(task, around) {
                Err(_) => lines.len() == 2,
                Ok(report) => {
                    let n = report.messages.len() as int;
                    &&& lines.len() == if report.status == Some(OutcomeStatus::Fail) {
                        n + 3
                    } else {
                        n + 2
                    }
                    &&& forall|i: int|
                        0 <= i < n ==> lines[i + 2] == (ConsoleModel {
                            stream: StreamKind::Stdout,
                            line: #[trigger] report.messages[i],
                        })
                    &&& report.status == Some(OutcomeStatus::Fail) ==> lines[n + 2] == (
                    ConsoleModel {
                        stream: StreamKind::Stderr,
                        line: task.label + " failed during preflight."@,
                    })
                },
            }
        }),
{
}

/// After a process a notice on standard error gives its exit code, where the task failed
/// by it, and else nothing is shown. Nor is anything shown for output or where a run
/// breaks off.
pub proof fn the_terminal_shows_failed_processes(
    m: RunModel,
    code: i32,
    stream: StreamKind,
    line: Text,
    failure: FailureModel,
)
    requires
        m.phase is Executing,
    ensures
        ({
            let task = m.tasks[m.outcomes.len() as int];
            let lines = m.console(InputModel::Exited(Ok(Some(code))));
            let unknown = m.console(InputModel::Exited(Ok(None)));
            &&& code == 0 || code == 10 ==> lines.len() == 0
            &&& code != 0 && code != 10 ==> lines.len() == 1 && lines[0] == (ConsoleModel {
                stream: StreamKind::Stderr,
                line: task.label + " failed (exit "@ + text::signed_decimal_text(code as int)
                    + ")."@,
            })
            &&& unknown.len() == 1 && unknown[0] == (ConsoleModel {
                stream: StreamKind::Stderr,
                line: task.label + " failed (exit "@ + text::signed_decimal_text(1) + ")."@,
            })
            &&& m.console(InputModel::Output(stream, line)).len() == 0
            &&& m.console(InputModel::Exited(Err(failure))).len() == 0
        }),
{
}

/// In an interactive run the start of a task is shown with its label, output as it is
/// and on its stream, and the end of a task with its label and how it ended, before an
/// empty line.
pub proof fn the_terminal_shows_every_event(
    id: Text,
    label: Text,
    stream: StreamKind,
    line: Text,
    status: OutcomeStatus,
)
    ensures
        ({
            let lines = runner::event_lines(EventModel::TaskStarted { task_id: id, label });
            &&& lines.len() == 1
            &&& lines[0] == (ConsoleModel { stream: StreamKind::Stdout, line: "==> "@ + label })
        }),
        ({
            let lines = runner::event_lines(EventModel::OutputLine { task_id: id, stream, line });
            &&& lines.len() == 1
            &&& lines[0] == (ConsoleModel { stream, line })
        }),
        ({
            let lines = runner::event_lines(
                EventModel::TaskFinished { task_id: id, label, status },
            );
            &&& lines.len() == 2
            &&& lines[0] == (ConsoleModel {
                stream: StreamKind::Stdout,
                line: label + " finished: "@ + match status {
                    OutcomeStatus::Success => "OK"@,
                    OutcomeStatus::Warn => "WARN"@,
                    OutcomeStatus::Fail => "FAIL"@,
                },
            })
            &&& lines[1] == (ConsoleModel { stream: StreamKind::Stdout, line: ""@ })
        }),
{
}

/// A report without a status shows its messages alone, and one that fails the task a
/// notice after them.
pub proof fn reports_are_shown_line_by_line(label: Text, report: ReportModel)
    ensures
        ({
            let lines = runner::preflight_lines(label, report);
            let n = report.messages.len() as int;
            &&& forall|i: int|
                0 <= i < n ==> #[trigger] lines[i] == (ConsoleModel {
                    stream: StreamKind::Stdout,
                    line: report.messages[i],
                })
            &&& report.status == Some(OutcomeStatus::Fail) ==> lines.len() == n + 1 && lines[n] == (
            ConsoleModel {
                stream: StreamKind::Stderr,
                line: label + " failed during preflight."@,
            })
            &&& report.status != Some(OutcomeStatus::Fail) ==> lines.len() == n
        }),
{
}

/// Nothing is shown for what a run does not wait for.
pub proof fn the_terminal_shows_nothing_else(m: RunModel, input: InputModel)
    ensures
        m.phase is Checking && !(input is Found) ==> m.console(input).len() == 0,
        m.phase is Executing && input is Found ==> m.console(input).len() == 0,
        m.phase is Finished || m.phase is Aborted ==> m.console(input).len() == 0,
{
}

} // verus!

use upgrade_cockpit::catalog::{
    ExecutionPlan, MissingRequirementPolicy, TaskDefinition, TaskPreflight, TaskRunner,
};
use upgrade_cockpit::failure::Failure;
use upgrade_cockpit::paths::PathStyle;
use upgrade_cockpit::runner::{
    bool_env, build_command, classify_exit_code, command_lookup, evaluate_preflight, event_console,
    exit_console, expand_path, inspect_preflight, preflight_console, task_heading, CommandLookup,
    CommandSpec, OutcomeStatus, PreflightReport, RunOptions, RunSummary, RunnerEvent, StreamKind,
    Surroundings,
};
use upgrade_cockpit::session::{EventLog, EventSink, RunInput, RunPhase, RunSession, Runner};
use upgrade_cockpit::variables::TaskEnv;

fn definition(id: &str, preflight: TaskPreflight, runner: TaskRunner) -> TaskDefinition {
    TaskDefinition {
        id: id.to_string(),
        label: id.to_string(),
        description: String::new(),
        category: "general".to_string(),
        tags: Vec::new(),
        notes: Vec::new(),
        default_selected: true,
        dangerous: false,
        danger_message: None,
        dependencies: Vec::new(),
        env: Default::default(),
        preflight,
        runner,
    }
}

fn task(id: &str, path: &str) -> TaskDefinition {
    definition(
        id,
        TaskPreflight::default(),
        TaskRunner::Script { path: path.to_string(), shell: "sh".to_string(), args: Vec::new() },
    )
}

fn task_with_preflight(id: &str, preflight: TaskPreflight) -> TaskDefinition {
    definition(
        id,
        preflight,
        TaskRunner::Command { program: "echo".to_string(), args: vec![id.to_string()] },
    )
}

fn default_options() -> RunOptions {
    RunOptions { dry_run: false, verbose: false, brew_cleanup: false, npm_audit: false }
}

fn runner() -> Runner {
    Runner::new(PathStyle::Unix, "/work".to_string())
}

fn nothing_required() -> Surroundings {
    Surroundings { commands: Vec::new(), paths: Vec::new(), home: Ok("/home/me".to_string()), style: PathStyle::Unix }
}

fn summary_of(session: &RunSession) -> RunSummary {
    session.result().expect("the run is over").expect("run tasks")
}

fn setting(command: &CommandSpec, name: &str) -> Option<String> {
    command.env.iter().rev().find(|(key, _)| key == name).map(|(_, value)| value.clone())
}

fn requirement(on_missing: MissingRequirementPolicy) -> TaskPreflight {
    TaskPreflight {
        requires_commands: vec!["definitely-not-installed-upgrade-cockpit".to_string()],
        requires_paths: Vec::new(),
        on_missing,
    }
}

fn missing_command() -> Surroundings {
    Surroundings { commands: vec![false], paths: Vec::new(), home: Ok("/home/me".to_string()), style: PathStyle::Unix }
}

#[test]
fn classifies_task_outcomes() {
    let plan = ExecutionPlan {
        tasks: vec![
            task("ok", "scripts/ok.sh"),
            task("warn", "scripts/warn.sh"),
            task("fail", "scripts/fail.sh"),
        ],
    };
    let mut log = EventLog::new();
    let mut session =
        runner().run_with_events(&plan, &default_options(), &mut log);
    for code in [0, 10, 3] {
        session.resume(RunInput::Found(nothing_required()), &mut log);
        session.resume(RunInput::Exited(Ok(Some(code))), &mut log);
    }

    let summary = summary_of(&session);
    let statuses: Vec<_> = summary.outcomes.iter().map(|outcome| outcome.status).collect();
    assert_eq!(
        statuses,
        vec![OutcomeStatus::Success, OutcomeStatus::Warn, OutcomeStatus::Fail]
    );
    assert_eq!(summary.ok_count, 1);
    assert_eq!(summary.warn_count, 1);
    assert_eq!(summary.fail_count, 1);
}

#[test]
fn forwards_runtime_environment() {
    let options = RunOptions { dry_run: true, verbose: true, brew_cleanup: true, npm_audit: true };
    let plan = ExecutionPlan { tasks: vec![task("env", "scripts/env.sh")] };
    let mut log = EventLog::new();
    let mut session = runner().run_with_events(&plan, &options, &mut log);
    session.resume(RunInput::Found(nothing_required()), &mut log);
    let contents = match session.phase() {
        RunPhase::Executing(command) => ["UC_DRY_RUN", "UC_VERBOSE", "UC_BREW_CLEANUP", "UC_NPM_AUDIT"]
            .map(|name| setting(command, name).expect("set"))
            .join(":"),
        other => panic!("unexpected phase: {other:?}"),
    };
    assert_eq!(contents, "1:1:1:1");
}

#[test]
fn emits_runner_events() {
    let plan = ExecutionPlan { tasks: vec![task("events", "scripts/events.sh")] };
    let mut log = EventLog::new();
    let mut session =
        runner().run_with_events(&plan, &default_options(), &mut log);
    session.resume(RunInput::Found(nothing_required()), &mut log);
    session.resume(RunInput::Output(StreamKind::Stdout, "line 1".to_string()), &mut log);
    session.resume(RunInput::Output(StreamKind::Stdout, "line 2".to_string()), &mut log);
    session.resume(RunInput::Exited(Ok(Some(0))), &mut log);

    let summary = summary_of(&session);
    let events = log.events;
    assert_eq!(summary.ok_count, 1);
    assert!(matches!(
        events.first(),
        Some(RunnerEvent::TaskStarted { task_id, .. }) if task_id == "events"
    ));
    assert!(events.iter().any(|event| {
        matches!(
            event,
            RunnerEvent::OutputLine {
                task_id,
                stream: StreamKind::Stdout,
                line,
            } if task_id == "events" && line == "line 1"
        )
    }));
    assert!(matches!(
        events.last(),
        Some(RunnerEvent::TaskFinished {
            task_id,
            status: OutcomeStatus::Success,
            ..
        }) if task_id == "events"
    ));
    assert_eq!(events.len(), 4);
}

#[test]
fn preflight_can_warn_and_skip_task() {
    let plan = ExecutionPlan {
        tasks: vec![task_with_preflight("warn", requirement(MissingRequirementPolicy::Warn))],
    };
    let mut log = EventLog::new();
    let mut session =
        runner().run_with_events(&plan, &default_options(), &mut log);
    session.resume(RunInput::Found(missing_command()), &mut log);

    let summary = summary_of(&session);
    assert_eq!(summary.warn_count, 1);
    assert_eq!(summary.outcomes[0].status, OutcomeStatus::Warn);
}

#[test]
fn preflight_can_fail_task() {
    let plan = ExecutionPlan {
        tasks: vec![task_with_preflight("fail", requirement(MissingRequirementPolicy::Fail))],
    };
    let mut log = EventLog::new();
    let mut session =
        runner().run_with_events(&plan, &default_options(), &mut log);
    session.resume(RunInput::Found(missing_command()), &mut log);

    let summary = summary_of(&session);
    assert_eq!(summary.fail_count, 1);
    assert_eq!(summary.outcomes[0].status, OutcomeStatus::Fail);
}

#[test]
fn expands_home_paths_for_preflight() {
    let home = Ok("/tmp/home".to_string());
    let task = definition(
        "path",
        TaskPreflight {
            requires_commands: Vec::new(),
            requires_paths: vec!["~/present.txt".to_string()],
            on_missing: MissingRequirementPolicy::Fail,
        },
        TaskRunner::Command { program: "echo".to_string(), args: vec!["path".to_string()] },
    );
    let expanded = expand_path(PathStyle::Unix, "~/present.txt", &home).expect("expand");
    assert_eq!(expanded, "/tmp/home/present.txt");
    let around = Surroundings {
        commands: Vec::new(),
        paths: vec![expanded == "/tmp/home/present.txt"],
        home,
        style: PathStyle::Unix,
    };
    let result = evaluate_preflight(&task, &around).expect("preflight");
    assert!(result.status.is_none());
}

#[test]
fn home_is_spelled_in_three_ways() {
    let home = Ok("/home/me".to_string());
    assert_eq!(expand_path(PathStyle::Unix, "~", &home), Ok("/home/me".to_string()));
    assert_eq!(expand_path(PathStyle::Unix, "~/a/b", &home), Ok("/home/me/a/b".to_string()));
    assert_eq!(expand_path(PathStyle::Unix, "$HOME/a", &home), Ok("/home/me/a".to_string()));
    assert_eq!(expand_path(PathStyle::Unix, "~other/a", &home), Ok("~other/a".to_string()));
    assert_eq!(expand_path(PathStyle::Unix, "/etc/$HOME/a", &home), Ok("/etc/$HOME/a".to_string()));
    let unknown = Err("environment variable not found".to_string());
    let failure = expand_path(PathStyle::Unix, "~", &unknown).expect_err("no home");
    assert_eq!(failure.message(), "HOME is not set");
    assert_eq!(failure.full_message(), "HOME is not set: environment variable not found");
    assert_eq!(expand_path(PathStyle::Unix, "/plain", &unknown), Ok("/plain".to_string()));
}

#[test]
fn preflight_reports_what_is_missing() {
    let task = task_with_preflight(
        "Tool",
        TaskPreflight {
            requires_commands: vec!["one".to_string(), "two".to_string()],
            requires_paths: vec!["~/x".to_string(), "/y".to_string()],
            on_missing: MissingRequirementPolicy::Warn,
        },
    );
    let around = Surroundings {
        commands: vec![true, false],
        paths: vec![false, true],
        home: Ok("/h".to_string()),
        style: PathStyle::Unix,
    };
    let report = inspect_preflight(&task, &around).expect("report");
    assert_eq!(report.status, Some(OutcomeStatus::Warn));
    assert_eq!(
        report.messages,
        vec![
            "Preflight for Tool:",
            "Missing command: two",
            "Missing path: /h/x",
            "Task skipped with warning because required tools are unavailable.",
        ]
    );
    let lost = Surroundings { commands: vec![true, true], paths: vec![], home: Err("unset".into()), style: PathStyle::Unix };
    assert!(inspect_preflight(&task, &lost).is_err());
}

#[test]
fn unchecked_requirements_count_as_missing() {
    let task = task_with_preflight("t", requirement(MissingRequirementPolicy::Fail));
    let report = inspect_preflight(&task, &nothing_required()).expect("report");
    assert_eq!(report.status, Some(OutcomeStatus::Fail));
    assert_eq!(
        report.messages.last().map(|line| line.as_str()),
        Some("Task cannot run because required tools are unavailable.")
    );
}

#[test]
fn commands_are_looked_for_in_the_search_path() {
    let dirs = vec!["/bin".to_string(), "/usr/bin/".to_string()];
    assert_eq!(
        command_lookup(PathStyle::Unix, "git", Some(&dirs)),
        CommandLookup::AnyFile(vec!["/bin/git".to_string(), "/usr/bin/git".to_string()])
    );
    assert_eq!(command_lookup(PathStyle::Unix, "git", None), CommandLookup::AnyFile(Vec::new()));
    assert_eq!(
        command_lookup(PathStyle::Unix, "./tool", Some(&dirs)),
        CommandLookup::Exists("./tool".to_string())
    );
}

#[test]
fn commands_are_looked_for_by_the_rules_of_the_system() {
    let dirs = vec!["C:/bin".to_string(), "D:/".to_string()];
    assert_eq!(
        command_lookup(PathStyle::Windows, "git", Some(&dirs)),
        CommandLookup::AnyFile(vec![
            "C:/bin\\git".to_string(),
            "C:/bin\\git.exe".to_string(),
            "D:/git".to_string(),
            "D:/git.exe".to_string(),
        ])
    );
    assert_eq!(
        command_lookup(PathStyle::Windows, "tools\\git", Some(&dirs)),
        CommandLookup::Exists("tools\\git".to_string())
    );
    assert_eq!(
        command_lookup(PathStyle::Unix, "tools\\git", Some(&vec!["/bin".to_string()])),
        CommandLookup::AnyFile(vec!["/bin/tools\\git".to_string()])
    );
}

#[test]
fn variables_are_ordered_by_name_and_set_once() {
    let mut env = TaskEnv::new();
    assert!(env.entries().is_empty());
    for (name, value) in [("B", "1"), ("C", "2"), ("A", "3"), ("B", "4"), ("AB", "5")] {
        env.insert(name.to_string(), value.to_string());
    }
    let entries: Vec<_> =
        env.entries().iter().map(|(name, value)| (name.as_str(), value.as_str())).collect();
    assert_eq!(entries, vec![("A", "3"), ("AB", "5"), ("B", "4"), ("C", "2")]);
    assert_eq!(env.clone(), env);

    let mut script = task("s", "s.sh");
    script.env = env;
    let command = build_command(PathStyle::Unix, &script, "/work", &default_options());
    let own: Vec<_> = command.env[6..].iter().map(|(name, _)| name.as_str()).collect();
    assert_eq!(own, vec!["A", "AB", "B", "C"]);
    assert_eq!(setting(&command, "B"), Some("4".to_string()));
}

#[test]
fn commands_of_scripts_and_programs() {
    let mut script = task("s", "scripts/s.zsh");
    script.runner = TaskRunner::Script {
        path: "scripts/s.zsh".to_string(),
        shell: "zsh".to_string(),
        args: vec!["-q".to_string()],
    };
    script.env.insert("UC_VERBOSE".to_string(), "loud".to_string());
    let command = build_command(PathStyle::Unix, &script, "/work", &default_options());
    assert_eq!(command.program, "zsh");
    assert_eq!(command.args, vec!["/work/scripts/s.zsh", "-q"]);
    assert_eq!(command.current_dir, "/work");
    assert_eq!(setting(&command, "UC_REPO_ROOT"), Some("/work".to_string()));
    assert_eq!(setting(&command, "UC_TASK_ID"), Some("s".to_string()));
    assert_eq!(setting(&command, "UC_DRY_RUN"), Some("0".to_string()));
    assert_eq!(setting(&command, "UC_VERBOSE"), Some("loud".to_string()));

    let program = task_with_preflight("p", TaskPreflight::default());
    let command = build_command(PathStyle::Unix, &program, "/work", &default_options());
    assert_eq!(command.program, "echo");
    assert_eq!(command.args, vec!["p"]);
}

#[test]
fn exit_codes_and_flags() {
    assert_eq!(classify_exit_code(0), OutcomeStatus::Success);
    assert_eq!(classify_exit_code(10), OutcomeStatus::Warn);
    assert_eq!(classify_exit_code(1), OutcomeStatus::Fail);
    assert_eq!(classify_exit_code(-10), OutcomeStatus::Fail);
    assert_eq!(bool_env(true), "1");
    assert_eq!(bool_env(false), "0");
    assert_eq!(OutcomeStatus::Success.label(), "OK");
    assert_eq!(OutcomeStatus::Warn.label(), "WARN");
    assert_eq!(OutcomeStatus::Fail.label(), "FAIL");
}

#[test]
fn lines_around_a_task() {
    let heading: Vec<_> = task_heading("Rust").into_iter().map(|line| line.line).collect();
    assert_eq!(heading, vec!["", "=== Rust ==="]);

    let report = PreflightReport {
        status: Some(OutcomeStatus::Fail),
        messages: vec!["missing".to_string()],
    };
    let lines = preflight_console("Rust", &report);
    assert_eq!(lines[0].stream, StreamKind::Stdout);
    assert_eq!(lines[0].line, "missing");
    assert_eq!(lines[1].stream, StreamKind::Stderr);
    assert_eq!(lines[1].line, "Rust failed during preflight.");

    let lines = exit_console("Rust", -3);
    assert_eq!(lines.len(), 1);
    assert_eq!(lines[0].stream, StreamKind::Stderr);
    assert_eq!(lines[0].line, "Rust failed (exit -3).");
    assert!(exit_console("Rust", 10).is_empty());

    let lines = event_console(&RunnerEvent::TaskFinished {
        task_id: "rust".to_string(),
        label: "Rust".to_string(),
        status: OutcomeStatus::Warn,
    });
    let lines: Vec<_> = lines.into_iter().map(|line| line.line).collect();
    assert_eq!(lines, vec!["Rust finished: WARN", ""]);
}

#[test]
fn an_empty_plan_is_finished_at_once() {
    let plan = ExecutionPlan { tasks: Vec::new() };
    let mut log = EventLog::new();
    let session =
        runner().run_with_events(&plan, &default_options(), &mut log);
    assert_eq!(session.phase(), &RunPhase::Finished);
    assert!(session.current_task().is_none());
    assert!(log.events.is_empty());
    let summary = summary_of(&session);
    assert_eq!((summary.ok_count, summary.warn_count, summary.fail_count), (0, 0, 0));
}

#[test]
fn a_process_without_exit_code_failed() {
    let plan = ExecutionPlan { tasks: vec![task("t", "t.sh")] };
    let mut log = EventLog::new();
    let mut session =
        runner().run_with_events(&plan, &default_options(), &mut log);
    session.resume(RunInput::Found(nothing_required()), &mut log);
    let ended = RunInput::Exited(Ok(None));
    let lines: Vec<_> = session.console(&ended).into_iter().map(|line| line.line).collect();
    assert_eq!(lines, vec!["t failed (exit 1)."]);
    let none = session.console(&RunInput::Found(nothing_required()));
    assert!(none.is_empty());
    session.resume(ended, &mut log);
    assert_eq!(summary_of(&session).fail_count, 1);
}

#[test]
fn a_task_is_announced_with_its_preflight() {
    let plan = ExecutionPlan {
        tasks: vec![task_with_preflight("b", requirement(MissingRequirementPolicy::Fail))],
    };
    let mut log = EventLog::new();
    let session = runner().run_with_events(&plan, &default_options(), &mut log);
    let shown: Vec<_> = session
        .console(&RunInput::Found(missing_command()))
        .into_iter()
        .map(|line| (line.stream, line.line))
        .collect();
    assert_eq!(shown[0], (StreamKind::Stdout, String::new()));
    assert_eq!(shown[1], (StreamKind::Stdout, "=== b ===".to_string()));
    assert_eq!(shown[2].1, "Preflight for b:");
    assert_eq!(shown[5], (StreamKind::Stderr, "b failed during preflight.".to_string()));
    assert_eq!(shown.len(), 6);
}

#[test]
fn scripts_and_homes_follow_the_rules_of_windows() {
    let style = PathStyle::Windows;
    let mut script = task("s", "scripts/s.sh");
    let command = build_command(style, &script, "C:\\work", &default_options());
    assert_eq!(command.args, vec!["C:\\work\\scripts/s.sh"]);
    script.runner = TaskRunner::Script {
        path: "C:\\s".to_string(),
        shell: "sh".to_string(),
        args: Vec::new(),
    };
    let command = build_command(style, &script, "C:\\r", &default_options());
    assert_eq!(command.args, vec!["C:\\s"]);
    let home = Ok("C:\\Users\\me".to_string());
    assert_eq!(expand_path(style, "~/a", &home), Ok("C:\\Users\\me\\a".to_string()));
}

#[test]
fn a_run_breaks_off_where_a_process_cannot_be_started() {
    let plan = ExecutionPlan { tasks: vec![task("a", "a.sh"), task("b", "b.sh")] };
    let mut log = EventLog::new();
    let mut session =
        runner().run_with_events(&plan, &default_options(), &mut log);
    session.resume(RunInput::Found(nothing_required()), &mut log);
    let failure = Failure {
        context: "failed to execute task a".to_string(),
        cause: Some("not found".to_string()),
    };
    session.resume(RunInput::Exited(Err(failure.clone())), &mut log);
    assert_eq!(session.result(), Some(Err(failure)));
    session.resume(RunInput::Exited(Ok(Some(0))), &mut log);
    session.resume(RunInput::Found(nothing_required()), &mut log);
    assert_eq!(log.events.len(), 1);
}

#[test]
fn a_run_breaks_off_where_home_is_unknown() {
    let plan = ExecutionPlan {
        tasks: vec![task_with_preflight(
            "a",
            TaskPreflight {
                requires_commands: Vec::new(),
                requires_paths: vec!["~/x".to_string()],
                on_missing: MissingRequirementPolicy::Warn,
            },
        )],
    };
    let mut log = EventLog::new();
    let mut session =
        runner().run_with_events(&plan, &default_options(), &mut log);
    let around =
        Surroundings { commands: Vec::new(), paths: vec![true], home: Err("unset".to_string()), style: PathStyle::Unix };
    session.resume(RunInput::Found(around), &mut log);
    let failure = session.result().expect("over").expect_err("broken off");
    assert_eq!(failure.full_message(), "HOME is not set: unset");
}

#[test]
fn events_follow_the_plan() {
    let plan = ExecutionPlan {
        tasks: vec![
            task("a", "a.sh"),
            task_with_preflight("b", requirement(MissingRequirementPolicy::Warn)),
        ],
    };
    let mut log = EventLog::new();
    let mut session =
        runner().run_with_events(&plan, &default_options(), &mut log);
    assert_eq!(session.current_task().map(|task| task.id.as_str()), Some("a"));
    session.resume(RunInput::Output(StreamKind::Stdout, "too early".to_string()), &mut log);
    session.resume(RunInput::Found(nothing_required()), &mut log);
    session.resume(RunInput::Exited(Ok(Some(0))), &mut log);
    assert_eq!(session.current_task().map(|task| task.id.as_str()), Some("b"));
    session.resume(RunInput::Found(missing_command()), &mut log);
    let kinds: Vec<_> = log
        .events
        .iter()
        .map(|event| match event {
            RunnerEvent::TaskStarted { task_id, .. } => format!("start {task_id}"),
            RunnerEvent::OutputLine { line, .. } => line.clone(),
            RunnerEvent::TaskFinished { task_id, status, .. } => {
                format!("end {task_id} {}", status.label())
            }
        })
        .collect();
    assert_eq!(
        kinds,
        vec![
            "start a",
            "end a OK",
            "start b",
            "Preflight for b:",
            "Missing command: definitely-not-installed-upgrade-cockpit",
            "Task skipped with warning because required tools are unavailable.",
            "end b WARN",
        ]
    );
    let summary = summary_of(&session);
    let ids: Vec<_> = summary.outcomes.iter().map(|outcome| outcome.id.as_str()).collect();
    assert_eq!(ids, vec!["a", "b"]);
    assert_eq!(summary.ok_count + summary.warn_count + summary.fail_count, 2);
}

#[test]
fn a_run_that_breaks_off_leaves_its_task_without_an_end() {
    let plan = ExecutionPlan { tasks: vec![task("a", "a.sh"), task("b", "b.sh"), task("c", "c.sh")] };
    let mut log = EventLog::new();
    let mut session =
        runner().run_with_events(&plan, &default_options(), &mut log);
    session.resume(RunInput::Found(nothing_required()), &mut log);
    session.resume(RunInput::Output(StreamKind::Stdout, "one".to_string()), &mut log);
    session.resume(RunInput::Output(StreamKind::Stderr, "two".to_string()), &mut log);
    session.resume(RunInput::Exited(Ok(Some(3))), &mut log);
    session.resume(RunInput::Found(nothing_required()), &mut log);
    session.resume(RunInput::Output(StreamKind::Stdout, "three".to_string()), &mut log);
    let gone = Failure { context: "gone".to_string(), cause: None };
    session.resume(RunInput::Exited(Err(gone)), &mut log);
    session.resume(RunInput::Output(StreamKind::Stdout, "too late".to_string()), &mut log);
    let told: Vec<_> = log
        .events
        .iter()
        .map(|event| match event {
            RunnerEvent::TaskStarted { task_id, .. } => format!("start {task_id}"),
            RunnerEvent::OutputLine { task_id, line, .. } => format!("{task_id}: {line}"),
            RunnerEvent::TaskFinished { task_id, .. } => format!("end {task_id}"),
        })
        .collect();
    assert_eq!(told, vec!["start a", "a: one", "a: two", "end a", "start b", "b: three"]);
    assert!(session.result().expect("over").is_err());
}

#[test]
fn sinks_take_events_in_order() {
    let mut log = EventLog::new();
    let event =
        RunnerEvent::TaskStarted { task_id: "a".to_string(), label: "A".to_string() };
    log.handle(event.clone());
    assert_eq!(log.events, vec![event]);
}

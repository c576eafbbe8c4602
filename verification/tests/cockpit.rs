use upgrade_cockpit::catalog::{
    Catalog, ExecutionPlan, MissingRequirementPolicy, TaskDefinition, TaskPreflight, TaskRunner,
};
use upgrade_cockpit::failure::Failure;
use upgrade_cockpit::paths::{join_path, PathStyle};
use upgrade_cockpit::persistence::{HistoryEntry, PersistedProfile, PersistedState};
use upgrade_cockpit::runner::{
    inspect_preflight, OutcomeStatus, PreflightReport, RunOptions, RunSummary, RunnerEvent,
    StreamKind, Surroundings, TaskOutcome,
};
use upgrade_cockpit::session::{EventLog, RunInput, RunPhase, Runner};
use upgrade_cockpit::tui::clock::{format_history_time, label_or_seconds, render_history_panel};
use upgrade_cockpit::tui::control::{
    handle_key, handover_lines, open_cockpit, store_for_root, ticket_for, unsaved, Key, KeyAction,
};
use upgrade_cockpit::tui::items::{AvailabilityState, ScopeFilter, Screen, TaskState};
use upgrade_cockpit::tui::layout::{
    centered_rect, detail_areas, frame_areas, make_centered_shares, summary_areas, Area, Share,
};
use upgrade_cockpit::tui::scene::{panels_of, place_panels, render_panel, PanelKind};
use upgrade_cockpit::tui::state::{AppState, CompletedRun, TaskListEntry};
use upgrade_cockpit::tui::style::{Color, LineText, Panel, TextStyle};
use upgrade_cockpit::tui::view::{
    availability_style, history_panel_with, outcome_style, render_confirmation, render_footer,
    render_logs, render_profile_panel, render_summary, render_task_detail, render_tasks,
    render_title, task_line, task_state_style,
};

fn task(
    id: &str,
    label: &str,
    default_selected: bool,
    dangerous: bool,
    dependencies: Vec<String>,
) -> TaskDefinition {
    TaskDefinition {
        id: id.to_string(),
        label: label.to_string(),
        description: format!("{label} description"),
        category: "general".to_string(),
        tags: Vec::new(),
        notes: Vec::new(),
        default_selected,
        dangerous,
        danger_message: None,
        dependencies,
        env: Default::default(),
        preflight: TaskPreflight::default(),
        runner: TaskRunner::Command { program: "echo".to_string(), args: vec![id.to_string()] },
    }
}

fn catalog_fixture() -> Catalog {
    Catalog::from_task_definitions(vec![
        task("brew", "Homebrew", true, false, Vec::new()),
        task("flutter", "Flutter", true, true, Vec::new()),
        task("node", "Node", true, false, Vec::new()),
        task("npm-tools", "npm tools", true, false, vec!["node".to_string()]),
    ])
    .expect("catalog")
}

fn default_options() -> RunOptions {
    RunOptions { dry_run: false, verbose: false, brew_cleanup: false, npm_audit: false }
}

fn runner() -> Runner {
    Runner::new(PathStyle::Unix, "/work".to_string())
}

fn grouped_catalog() -> Catalog {
    let mut brew = task("brew", "Homebrew", true, false, Vec::new());
    brew.category = "packages".to_string();
    brew.tags = vec!["system".to_string()];
    let mut flutter = task("flutter", "Flutter", true, true, Vec::new());
    flutter.category = "toolchain".to_string();
    flutter.tags = vec!["mobile".to_string(), "runtime".to_string()];
    flutter.danger_message = Some("Resets the SDK.".to_string());
    flutter.notes = vec!["Slow.".to_string()];
    flutter.preflight = TaskPreflight {
        requires_commands: vec!["flutter".to_string(), "git".to_string()],
        requires_paths: vec!["~/flutter".to_string()],
        on_missing: MissingRequirementPolicy::Fail,
    };
    let mut node = task("node", "Node", false, false, Vec::new());
    node.category = "toolchain".to_string();
    node.tags = vec!["runtime".to_string()];
    let mut npm = task("npm-tools", "npm tools", false, false, vec!["node".to_string()]);
    npm.category = "packages".to_string();
    Catalog::from_task_definitions(vec![brew, flutter, node, npm]).expect("catalog")
}

fn selected(state: &AppState) -> Vec<&str> {
    state.tasks().iter().filter(|task| task.selected).map(|task| task.id.as_str()).collect()
}

fn summary(outcomes: Vec<(&str, OutcomeStatus)>) -> RunSummary {
    let count = |wanted| outcomes.iter().filter(|(_, status)| *status == wanted).count();
    RunSummary {
        ok_count: count(OutcomeStatus::Success),
        warn_count: count(OutcomeStatus::Warn),
        fail_count: count(OutcomeStatus::Fail),
        outcomes: outcomes
            .iter()
            .map(|(id, status)| TaskOutcome {
                id: id.to_string(),
                label: id.to_uppercase(),
                status: *status,
            })
            .collect(),
    }
}

fn completed(result: Result<RunSummary, String>) -> CompletedRun {
    CompletedRun {
        started_at_unix_secs: 1_700_000_000,
        duration_ms: 42,
        profile_id: "custom".to_string(),
        selected_tasks: vec!["brew".to_string()],
        result,
    }
}

fn shown(line: &LineText) -> String {
    line.spans.iter().map(|span| span.text.as_str()).collect()
}

fn shown_lines(panel: &Panel) -> Vec<String> {
    panel.lines.iter().map(shown).collect()
}

fn press(state: &mut AppState, keys: &str) {
    for key in keys.chars() {
        assert_eq!(handle_key(state, Key::Char(key), false), KeyAction::Continue);
    }
}

#[test]
fn starts_with_default_selected_tasks() {
    let state = AppState::new(catalog_fixture(), default_options());
    let selected: Vec<_> = state
        .tasks()
        .iter()
        .filter(|task| task.selected)
        .map(|task| task.id.as_str())
        .collect();

    assert_eq!(selected, vec!["brew", "flutter", "node", "npm-tools"]);
    assert_eq!(state.screen(), Screen::Select);
}

#[test]
fn prepares_plan_and_requires_confirmation_for_dangerous_tasks() {
    let mut state = AppState::new(catalog_fixture(), default_options());
    let plan = state.prepare_run().expect("prepare run");

    assert!(plan.is_none());
    assert_eq!(state.screen(), Screen::ConfirmDangerous);

    let confirmed = state.confirm_run().expect("confirmed plan");
    let ids: Vec<_> = confirmed.tasks.iter().map(|task| task.id.as_str()).collect();
    assert_eq!(ids, vec!["brew", "flutter", "node", "npm-tools"]);
    assert_eq!(state.screen(), Screen::Running);
}

#[test]
fn can_cancel_dangerous_confirmation() {
    let mut state = AppState::new(catalog_fixture(), default_options());
    state.prepare_run().expect("prepare run");
    state.cancel_confirmation();

    assert_eq!(state.screen(), Screen::Select);
    assert_eq!(state.status_message(), Some("Run cancelled."));
}

#[test]
fn rejects_empty_selection() {
    let mut state = AppState::new(catalog_fixture(), default_options());
    state.clear_selection();

    let error = state.prepare_run().expect_err("should fail");
    assert!(error.message().contains("select at least one task"));
}

#[test]
fn handles_runner_events_and_summary() {
    let mut state = AppState::new(catalog_fixture(), default_options());
    state.clear_selection();
    assert_eq!(state.selected_index(), 0);
    state.toggle_current();
    let plan = state.prepare_run().expect("prepare run").expect("plan");
    assert_eq!(plan.tasks.len(), 1);

    state.handle_runner_event(RunnerEvent::TaskStarted {
        task_id: "brew".to_string(),
        label: "Homebrew".to_string(),
    });
    state.handle_runner_event(RunnerEvent::OutputLine {
        task_id: "brew".to_string(),
        stream: StreamKind::Stdout,
        line: "updating".to_string(),
    });
    state.handle_runner_event(RunnerEvent::TaskFinished {
        task_id: "brew".to_string(),
        label: "Homebrew".to_string(),
        status: OutcomeStatus::Warn,
    });
    state.finish_run(Ok(RunSummary {
        outcomes: vec![TaskOutcome {
            id: "brew".to_string(),
            label: "Homebrew".to_string(),
            status: OutcomeStatus::Warn,
        }],
        ok_count: 0,
        warn_count: 1,
        fail_count: 0,
    }));

    assert_eq!(state.screen(), Screen::Summary);
    assert_eq!(state.tasks()[0].state, TaskState::Warn);
    assert!(state.logs().iter().any(|line| line.contains("updating")));
    assert_eq!(state.summary().expect("summary").warn_count, 1);
}

#[test]
fn logs_tell_the_run() {
    let mut state = AppState::new(catalog_fixture(), default_options());
    state.handle_runner_event(RunnerEvent::TaskStarted {
        task_id: "node".to_string(),
        label: "Node".to_string(),
    });
    assert_eq!(state.tasks()[2].state, TaskState::Running);
    state.handle_runner_event(RunnerEvent::OutputLine {
        task_id: "node".to_string(),
        stream: StreamKind::Stderr,
        line: "careful".to_string(),
    });
    state.handle_runner_event(RunnerEvent::TaskFinished {
        task_id: "node".to_string(),
        label: "Node".to_string(),
        status: OutcomeStatus::Success,
    });
    assert_eq!(state.tasks()[2].state, TaskState::Success);
    assert_eq!(state.tasks()[1].state, TaskState::Pending);
    let logs: Vec<_> = state.logs().iter().map(|line| line.as_str()).collect();
    assert_eq!(logs, vec!["==> Node", "[node:err] careful", "Node finished: OK"]);
}

#[test]
fn only_the_latest_activity_is_kept() {
    let mut state = AppState::new(catalog_fixture(), default_options());
    for number in 0..250 {
        state.handle_runner_event(RunnerEvent::OutputLine {
            task_id: "node".to_string(),
            stream: StreamKind::Stdout,
            line: format!("{number}"),
        });
    }
    assert_eq!(state.logs().len(), 200);
    assert_eq!(state.logs()[0], "[node:out] 50");
    assert_eq!(state.logs()[199], "[node:out] 249");
}

#[test]
fn failed_runs_are_explained() {
    let mut state = AppState::new(catalog_fixture(), default_options());
    state.finish_run(Err(Failure {
        context: "failed to execute task brew".to_string(),
        cause: Some("not found".to_string()),
    }));
    assert_eq!(state.screen(), Screen::Summary);
    assert_eq!(
        state.status_message(),
        Some("Run failed: failed to execute task brew: not found")
    );
    assert!(state.summary().is_none());
    assert_eq!(state.logs()[0], "fatal: failed to execute task brew: not found");
    state.reset_after_summary();
    assert_eq!(state.screen(), Screen::Select);
    assert!(state.logs().is_empty());
    assert_eq!(state.status_message(), None);
}

#[test]
fn the_cursor_goes_round() {
    let mut state = AppState::new(catalog_fixture(), default_options());
    let mut places = Vec::new();
    for _ in 0..5 {
        places.push(state.selected_index());
        state.move_next();
    }
    assert_eq!(places, vec![0, 1, 2, 3, 0]);
    assert_eq!(state.selected_index(), 1);
    state.move_previous();
    state.move_previous();
    assert_eq!(state.selected_index(), 3);
    assert_eq!(state.selected_task().id, "npm-tools");

    let mut empty =
        AppState::new(Catalog::from_task_definitions(Vec::new()).expect("empty"), default_options());
    empty.move_next();
    empty.move_previous();
    empty.toggle_current();
    assert_eq!(empty.selected_index(), 0);
}

#[test]
fn the_cursor_skips_hidden_tasks() {
    let mut state = AppState::new(grouped_catalog(), default_options());
    state.cycle_scope_filter();
    assert_eq!(state.filter_summary(), "selected");
    state.move_next();
    assert_eq!(state.selected_index(), 1);
    state.move_next();
    assert_eq!(state.selected_index(), 0);
    state.move_previous();
    assert_eq!(state.selected_index(), 1);
    state.toggle_current();
    assert_eq!(state.selected_index(), 0);
    assert_eq!(selected(&state), vec!["brew"]);
    state.toggle_current();
    assert!(state.selected_visible_task().is_none());
    state.toggle_current();
    assert!(selected(&state).is_empty());
}

#[test]
fn selection_and_flags_are_switched() {
    let mut state = AppState::new(grouped_catalog(), default_options());
    state.toggle_current();
    assert_eq!(selected(&state), vec!["flutter"]);
    state.toggle_current();
    assert_eq!(selected(&state), vec!["brew", "flutter"]);
    state.select_all();
    assert_eq!(selected(&state).len(), 4);
    state.clear_selection();
    assert!(selected(&state).is_empty());
    state.toggle_dry_run();
    state.toggle_verbose();
    state.toggle_brew_cleanup();
    state.toggle_npm_audit();
    assert_eq!(
        state.options(),
        RunOptions { dry_run: true, verbose: true, brew_cleanup: true, npm_audit: true }
    );
    state.toggle_verbose();
    assert!(!state.options().verbose);
}

#[test]
fn nothing_is_edited_outside_the_selection() {
    let mut state = AppState::new(catalog_fixture(), default_options());
    state.prepare_run().expect("prepare run");
    state.toggle_current();
    state.clear_selection();
    state.toggle_dry_run();
    state.cycle_profile_next();
    assert_eq!(selected(&state).len(), 4);
    assert_eq!(state.options(), default_options());
    assert_eq!(state.active_profile_id(), "custom");
    assert!(!state.is_dirty());
}

#[test]
fn profiles_go_round_and_select_their_tasks() {
    let mut state = AppState::new(catalog_fixture(), default_options());
    let mut ids = Vec::new();
    for _ in 0..5 {
        ids.push(state.active_profile_id());
        state.cycle_profile_next();
    }
    assert_eq!(ids, vec!["custom", "full", "safe", "toolchains", "package-managers"]);
    assert_eq!(state.active_profile_id(), "custom");
    state.cycle_profile_previous();
    assert_eq!(state.active_profile().label, "Package Managers");
    assert_eq!(selected(&state), vec!["brew", "node", "npm-tools"]);
    assert!(state.is_dirty());
    state.toggle_current();
    assert_eq!(state.active_profile_id(), "custom");
    assert_eq!(state.active_profile().selected_tasks, vec!["node", "npm-tools"]);
}

#[test]
fn filters_limit_the_list() {
    let mut state = AppState::new(grouped_catalog(), default_options());
    assert_eq!(
        state.task_list_entries(),
        vec![
            TaskListEntry::Header("packages".to_string()),
            TaskListEntry::Task(0),
            TaskListEntry::Task(3),
            TaskListEntry::Header("toolchain".to_string()),
            TaskListEntry::Task(1),
            TaskListEntry::Task(2),
        ]
    );
    assert_eq!(state.selected_list_index(), Some(1));
    state.move_next();
    assert_eq!(state.selected_list_index(), Some(4));
    state.toggle_selected_category_filter();
    assert_eq!(state.filter_summary(), "all, category toolchain");
    state.toggle_selected_tag_filter().expect("tagged");
    assert_eq!(state.filter_summary(), "all, category toolchain, tag mobile");
    assert_eq!(
        state.task_list_entries(),
        vec![TaskListEntry::Header("toolchain".to_string()), TaskListEntry::Task(1)]
    );
    state.toggle_selected_tag_filter().expect("lifted");
    state.toggle_selected_category_filter();
    assert_eq!(state.filter_summary(), "all");
    state.cycle_scope_filter();
    state.cycle_scope_filter();
    assert_eq!(state.filter_summary(), "dangerous");
    assert_eq!(state.task_list_entries().len(), 2);
    state.clear_filters();
    assert_eq!(state.task_list_entries().len(), 6);
    assert_eq!(selected(&state), vec!["brew", "flutter"]);
    assert!(!state.is_dirty());
}

#[test]
fn a_task_without_tags_gives_no_tag_filter() {
    let mut state = AppState::new(grouped_catalog(), default_options());
    state.move_previous();
    let failure = state.toggle_selected_tag_filter().expect_err("no tags");
    assert_eq!(failure.message(), "selected task has no tags");
    assert_eq!(state.filter_summary(), "all");
    assert_eq!(ScopeFilter::Available.next(), ScopeFilter::All);
}

#[test]
fn availability_comes_from_preflight() {
    let mut state = AppState::new(grouped_catalog(), default_options());
    state.apply_preflight(
        "flutter",
        &Ok(PreflightReport {
            status: Some(OutcomeStatus::Fail),
            messages: vec!["Missing command: flutter".to_string()],
        }),
    );
    state.apply_preflight("node", &Ok(PreflightReport { status: None, messages: Vec::new() }));
    state.apply_preflight(
        "brew",
        &Ok(PreflightReport { status: Some(OutcomeStatus::Warn), messages: Vec::new() }),
    );
    state.apply_preflight(
        "npm-tools",
        &Err(Failure { context: "HOME is not set".to_string(), cause: None }),
    );
    let found: Vec<_> = state.tasks().iter().map(|task| task.availability).collect();
    assert_eq!(
        found,
        vec![
            AvailabilityState::WarnUnavailable,
            AvailabilityState::FailUnavailable,
            AvailabilityState::Available,
            AvailabilityState::FailUnavailable,
        ]
    );
    assert_eq!(state.tasks()[3].preflight_messages, vec!["HOME is not set"]);
    state.cycle_scope_filter();
    state.cycle_scope_filter();
    state.cycle_scope_filter();
    assert_eq!(state.selected_visible_task().map(|task| task.id.as_str()), Some("node"));
    assert_eq!(AvailabilityState::Available.label(), "available");
}

#[test]
fn safe_plans_run_at_once() {
    let mut state = AppState::new(grouped_catalog(), default_options());
    state.clear_selection();
    state.move_previous();
    state.toggle_current();
    let plan = state.prepare_run().expect("prepared").expect("plan");
    let ids: Vec<_> = plan.tasks.iter().map(|task| task.id.as_str()).collect();
    assert_eq!(ids, vec!["node", "npm-tools"]);
    assert_eq!(state.screen(), Screen::Running);
    assert_eq!(state.status_message(), Some("Running selected tasks..."));
    assert!(state.confirm_run().is_none());
}

#[test]
fn cycles_are_reported_by_the_cockpit() {
    let catalog = Catalog::from_task_definitions(vec![
        task("a", "A", true, false, vec!["b".to_string()]),
        task("b", "B", false, false, vec!["a".to_string()]),
    ])
    .expect("catalog");
    let mut state = AppState::new(catalog, default_options());
    let failure = state.prepare_run().expect_err("cycle");
    assert_eq!(failure.message(), "dependency cycle detected at task a");
    assert_eq!(state.screen(), Screen::Select);
}

#[test]
fn dangers_are_named_before_confirmation() {
    let mut state = AppState::new(grouped_catalog(), default_options());
    assert!(state.pending_danger_messages().is_empty());
    state.prepare_run().expect("prepare run");
    assert_eq!(
        state.pending_danger_messages(),
        vec![("Flutter".to_string(), "Resets the SDK.".to_string())]
    );
    let mut plain = AppState::new(catalog_fixture(), default_options());
    plain.prepare_run().expect("prepare run");
    assert_eq!(
        plain.pending_danger_messages(),
        vec![("Flutter".to_string(), "Marked as dangerous.".to_string())]
    );
    assert_eq!(
        shown_lines(&render_confirmation(&state)),
        vec![
            "Dangerous tasks selected",
            "",
            "This run includes tasks with explicit danger notes:",
            "",
            "Flutter: Resets the SDK.",
            "",
            "Press y to continue or n to cancel.",
        ]
    );
}

#[test]
fn runs_enter_the_history() {
    let mut state = AppState::new(catalog_fixture(), default_options());
    state.record_run(completed(Ok(summary(vec![("brew", OutcomeStatus::Success)]))));
    assert_eq!(state.history().len(), 1);
    assert_eq!(state.history()[0].summary.outcome_labels, vec!["BREW:OK"]);
    assert_eq!(state.status_message(), Some("Run complete."));
    assert!(state.is_dirty());
    state.record_run(completed(Err("interrupted".to_string())));
    assert_eq!(state.history().len(), 1);
    assert_eq!(state.status_message(), Some("Run failed: interrupted"));
    for _ in 0..30 {
        state.record_run(completed(Ok(summary(Vec::new()))));
    }
    assert_eq!(state.history().len(), 20);
}

#[test]
fn failed_tasks_are_rerun() {
    let mut state = AppState::new(grouped_catalog(), default_options());
    let failure = state.rerun_failed().expect_err("nothing ran");
    assert_eq!(failure.message(), "no failed tasks to rerun");
    state.record_run(completed(Ok(summary(vec![
        ("brew", OutcomeStatus::Success),
        ("npm-tools", OutcomeStatus::Fail),
    ]))));
    let plan = state.rerun_failed().expect("rerun").expect("plan");
    let ids: Vec<_> = plan.tasks.iter().map(|task| task.id.as_str()).collect();
    assert_eq!(ids, vec!["node", "npm-tools"]);
}

#[test]
fn the_last_profile_is_rerun() {
    let mut state = AppState::new(catalog_fixture(), default_options());
    let failure = state.rerun_last_profile().expect_err("nothing ran");
    assert_eq!(failure.message(), "no profile has been run yet");
    let mut run = completed(Ok(summary(Vec::new())));
    run.profile_id = "package-managers".to_string();
    state.record_run(run);
    let plan = state.rerun_last_profile().expect("rerun").expect("plan");
    let ids: Vec<_> = plan.tasks.iter().map(|task| task.id.as_str()).collect();
    assert_eq!(ids, vec!["brew", "node", "npm-tools"]);
    assert_eq!(state.active_profile_id(), "package-managers");
    let mut run = completed(Ok(summary(Vec::new())));
    run.profile_id = "gone".to_string();
    state.record_run(run);
    let failure = state.rerun_last_profile().expect_err("unknown");
    assert_eq!(failure.message(), "unknown profile gone");
}

#[test]
fn reopening_restores_the_cockpit() {
    let mut state = AppState::new(catalog_fixture(), default_options());
    state.toggle_current();
    state.toggle_verbose();
    state.record_run(completed(Ok(summary(vec![("node", OutcomeStatus::Warn)]))));
    let again = AppState::restore(catalog_fixture(), default_options(), state.snapshot());
    assert_eq!(selected(&again), vec!["flutter", "node", "npm-tools"]);
    assert!(again.options().verbose);
    assert_eq!(again.history(), state.history());
    assert_eq!(again.snapshot(), state.snapshot());
    assert!(!again.is_dirty());

    let mut safe = AppState::new(catalog_fixture(), default_options());
    safe.cycle_profile_next();
    safe.cycle_profile_next();
    let again = AppState::restore(catalog_fixture(), default_options(), safe.snapshot());
    assert_eq!(again.active_profile_id(), "safe");
    assert_eq!(selected(&again), vec!["brew", "node", "npm-tools"]);
}

#[test]
fn flags_of_the_command_line_are_added_to_saved_ones() {
    let persisted = PersistedState {
        active_profile_id: "unknown".to_string(),
        custom_profile: PersistedProfile {
            selected_tasks: vec!["node".to_string(), "gone".to_string()],
            options: RunOptions { verbose: true, ..default_options() },
        },
        ..PersistedState::default()
    };
    let options = RunOptions { dry_run: true, ..default_options() };
    let state = AppState::restore(catalog_fixture(), options, persisted);
    assert_eq!(state.active_profile_id(), "custom");
    assert_eq!(selected(&state), vec!["node"]);
    assert!(state.options().dry_run && state.options().verbose);
    assert!(!state.options().npm_audit);
}

#[test]
fn keys_on_the_selection_screen() {
    let mut state = AppState::new(grouped_catalog(), default_options());
    press(&mut state, "jj");
    assert_eq!(state.selected_index(), 2);
    press(&mut state, "k");
    assert_eq!(handle_key(&mut state, Key::Down, false), KeyAction::Continue);
    assert_eq!(handle_key(&mut state, Key::Up, false), KeyAction::Continue);
    assert_eq!(state.selected_index(), 1);
    press(&mut state, " ");
    assert_eq!(selected(&state), vec!["brew"]);
    press(&mut state, "a");
    assert_eq!(selected(&state).len(), 4);
    press(&mut state, "xdvcu");
    assert!(selected(&state).is_empty());
    assert!(state.options().dry_run && state.options().npm_audit);
    press(&mut state, "p");
    assert_eq!(state.active_profile_id(), "full");
    handle_key(&mut state, Key::Tab, false);
    assert_eq!(state.active_profile_id(), "safe");
    press(&mut state, "P");
    assert_eq!(state.active_profile_id(), "safe");
    handle_key(&mut state, Key::Char('P'), true);
    assert_eq!(state.active_profile_id(), "full");
    handle_key(&mut state, Key::BackTab, false);
    assert_eq!(state.active_profile_id(), "custom");
    press(&mut state, "fg");
    assert_eq!(state.filter_summary(), "selected");
    press(&mut state, "z");
    press(&mut state, "gt");
    assert_eq!(state.filter_summary(), "all, category toolchain, tag mobile");
    press(&mut state, "z");
    handle_key(&mut state, Key::Enter, false);
    assert_eq!(state.status_message(), Some("select at least one task"));
    press(&mut state, "jjt");
    assert_eq!(state.status_message(), Some("selected task has no tags"));
    assert_eq!(handle_key(&mut state, Key::Esc, false), KeyAction::Continue);
    assert_eq!(handle_key(&mut state, Key::Other, false), KeyAction::Continue);
    assert_eq!(handle_key(&mut state, Key::Char('q'), false), KeyAction::Quit);
}

#[test]
fn keys_around_a_run() {
    let mut state = AppState::new(catalog_fixture(), default_options());
    assert_eq!(handle_key(&mut state, Key::Enter, false), KeyAction::Continue);
    assert_eq!(state.screen(), Screen::ConfirmDangerous);
    press(&mut state, "q");
    assert_eq!(handle_key(&mut state, Key::Esc, false), KeyAction::Continue);
    assert_eq!(state.screen(), Screen::Select);
    handle_key(&mut state, Key::Enter, false);
    press(&mut state, "n");
    assert_eq!(state.screen(), Screen::Select);
    handle_key(&mut state, Key::Enter, false);
    let plan = match handle_key(&mut state, Key::Char('y'), false) {
        KeyAction::Run(plan) => plan,
        other => panic!("unexpected action: {other:?}"),
    };
    press(&mut state, "q");
    assert_eq!(state.status_message(), Some("Wait for the current run to finish."));
    let ticket = ticket_for(&state, &plan);
    assert_eq!(ticket.selected_tasks, vec!["brew", "flutter", "node", "npm-tools"]);
    assert_eq!(ticket.profile_id, "custom");
    assert_eq!(ticket.options, default_options());
    let run = ticket.complete(
        5,
        7,
        Ok(summary(vec![("brew", OutcomeStatus::Fail), ("node", OutcomeStatus::Success)])),
    );
    assert_eq!((run.started_at_unix_secs, run.duration_ms), (5, 7));
    state.record_run(run);
    assert!(matches!(handle_key(&mut state, Key::Char('r'), false), KeyAction::Run(_)));
    state.record_run(completed(Ok(summary(Vec::new()))));
    press(&mut state, "r");
    assert_eq!(state.status_message(), Some("no failed tasks to rerun"));
    press(&mut state, "l");
    assert_eq!(state.screen(), Screen::ConfirmDangerous);
    press(&mut state, "n");
    state.record_run(completed(Err("broken".to_string())));
    handle_key(&mut state, Key::Enter, false);
    assert_eq!(state.screen(), Screen::Select);
    state.record_run(completed(Err("broken".to_string())));
    assert_eq!(handle_key(&mut state, Key::Char('q'), false), KeyAction::Quit);
}

#[test]
fn a_failure_is_recorded_without_its_cause() {
    let mut state = AppState::new(catalog_fixture(), default_options());
    let plan = state.prepare_run().expect("prepared");
    assert!(plan.is_none());
    let plan = state.confirm_run().expect("plan");
    let run = ticket_for(&state, &plan).complete(
        1,
        2,
        Err(Failure { context: "failed to execute task x".into(), cause: Some("gone".into()) }),
    );
    assert_eq!(run.result, Err("failed to execute task x".to_string()));
}

#[test]
fn the_cockpit_opens_and_saves() {
    let failure = Failure { context: "failed to read x".to_string(), cause: Some("no".into()) };
    let state = open_cockpit(catalog_fixture(), default_options(), Err(failure.clone()));
    assert_eq!(state.status_message(), Some("State load failed: failed to read x"));
    assert_eq!(selected(&state).len(), 4);
    let mut state =
        open_cockpit(catalog_fixture(), default_options(), Ok(PersistedState::default()));
    assert_eq!(state.status_message(), None);
    assert!(unsaved(&state).is_none());
    state.toggle_current();
    assert_eq!(unsaved(&state), Some(state.snapshot()));
    state.note_saved(Err(failure));
    assert_eq!(state.status_message(), Some("State save failed: failed to read x"));
    assert!(state.is_dirty());
    state.note_saved(Ok(()));
    assert!(!state.is_dirty());
    assert_eq!(store_for_root(PathStyle::Unix, "/work").path(), "/work/.upgrade-cockpit/state.toml");
    for root in ["/work", "/work/", "", ".", "/", "a/b"] {
        let store = store_for_root(PathStyle::Unix, root);
        assert_eq!(
            store.directory(PathStyle::Unix),
            Some(join_path(PathStyle::Unix, root, ".upgrade-cockpit"))
        );
    }
    let store = store_for_root(PathStyle::Windows, "\\\\?\\C:\\work\\");
    assert_eq!(
        store.directory(PathStyle::Windows),
        Some("\\\\?\\C:\\work\\.upgrade-cockpit".to_string())
    );
    let store = store_for_root(PathStyle::Windows, "C:\\work");
    assert_eq!(store.path(), "C:\\work\\.upgrade-cockpit\\state.toml");
    assert_eq!(
        store.directory(PathStyle::Windows),
        Some("C:\\work\\.upgrade-cockpit".to_string())
    );
    assert_eq!(
        handover_lines(),
        vec![
            "upgrade-cockpit released the terminal for task output.",
            "The summary screen will return when the run finishes.",
            "",
        ]
    );
}

#[test]
fn title_names_profile_and_filters() {
    let mut state = AppState::new(catalog_fixture(), default_options());
    let bar = render_title(&state);
    assert_eq!(bar.title, " Upgrade Cockpit [Custom] [all] ");
    assert_eq!(bar.tabs, vec!["Select", "Confirm", "Running", "Summary"]);
    assert_eq!(bar.active, 0);
    assert_eq!(bar.highlight, TextStyle::on(Color::Black, Color::Cyan));
    state.prepare_run().expect("prepare run");
    assert_eq!(render_title(&state).active, 1);
    state.confirm_run();
    assert_eq!(render_title(&state).active, 2);
    state.finish_run(Ok(summary(Vec::new())));
    assert_eq!(render_title(&state).active, 3);
}

#[test]
fn rows_of_the_task_list() {
    let mut state = AppState::new(grouped_catalog(), default_options());
    state.apply_preflight(
        "node",
        &Ok(PreflightReport { status: Some(OutcomeStatus::Warn), messages: Vec::new() }),
    );
    let list = render_tasks(&state);
    assert_eq!(list.title, " Tasks [all] ");
    assert_eq!(list.selected, Some(1));
    assert_eq!(list.symbol, ">> ");
    assert_eq!(list.highlight.bg, Some(Color::Rgb(28, 36, 49)));
    let rows: Vec<_> = list.rows.iter().map(shown).collect();
    assert_eq!(
        rows,
        vec![
            " packages ",
            "[x] Homebrew  pending",
            "[ ] npm tools  pending",
            " toolchain ",
            "[x] Flutter  pending !",
            "[ ] Node  pending ~",
        ]
    );
    assert!(list.rows[0].style.bold);
    assert_eq!(list.rows[0].style.bg, Some(Color::Rgb(143, 185, 177)));
    assert_eq!(list.rows[1].spans[0].style, TextStyle::colored(Color::LightGreen));
    assert_eq!(list.rows[5].spans[1].style, TextStyle::colored(Color::Yellow));
    assert_eq!(shown(&task_line(&state.tasks()[1])), "[x] Flutter  pending !");
    state.clear_selection();
    state.cycle_scope_filter();
    let list = render_tasks(&state);
    assert_eq!(shown(&list.rows[0]), " No tasks match the current filters. ");
    assert_eq!(list.rows.len(), 1);
    assert_eq!(list.selected, None);
}

#[test]
fn detail_of_a_task() {
    let mut state = AppState::new(grouped_catalog(), default_options());
    state.move_next();
    state.toggle_verbose();
    state.apply_preflight(
        "flutter",
        &Ok(PreflightReport {
            status: Some(OutcomeStatus::Fail),
            messages: vec!["Missing command: flutter".to_string()],
        }),
    );
    let panel = render_task_detail(&state);
    assert_eq!(panel.title, " Detail ");
    assert_eq!(
        shown_lines(&panel),
        vec![
            "Flutter dangerous unavailable, will fail",
            "",
            "Flutter description",
            "",
            "Category: toolchain",
            "Tags: mobile, runtime",
            "Dependencies: none",
            "Danger: Resets the SDK.",
            "Requires commands: flutter, git",
            "Requires paths: ~/flutter",
            "On missing: fail task",
            "",
            "Notes",
            "- Slow.",
            "",
            "Preflight",
            "- Missing command: flutter",
            "",
            "dry-run:off  verbose:on  brew-cleanup:off  npm-audit:off  ",
        ]
    );
    assert_eq!(panel.lines[18].spans[1].style, TextStyle::on(Color::Black, Color::LightGreen));
    state.move_next();
    let lines = shown_lines(&render_task_detail(&state));
    assert_eq!(lines[0], "Node safe available");
    assert_eq!(lines[9], "On missing: warn and skip");
    assert_eq!(lines.len(), 12);
    state.clear_selection();
    state.cycle_scope_filter();
    assert_eq!(
        shown_lines(&render_task_detail(&state)),
        vec![
            "No tasks match the current filters.",
            "",
            "Clear the active filters or change the scope to see tasks again.",
            "",
            "Active filter: selected",
        ]
    );
}

#[test]
fn profile_panel_shows_the_active_profile() {
    let mut state = AppState::new(catalog_fixture(), default_options());
    state.cycle_profile_previous();
    assert_eq!(
        shown_lines(&render_profile_panel(&state)),
        vec![
            "Package Managers package-managers",
            "",
            "Refresh package managers and globally installed CLI tooling.",
            "",
            "Selection: brew, node, npm-tools",
            "Filter: all",
        ]
    );
    state.clear_selection();
    assert_eq!(shown_lines(&render_profile_panel(&state))[4], "Selection: none");
}

fn entry(started_at_unix_secs: u64, outcomes: Vec<(&str, OutcomeStatus)>) -> HistoryEntry {
    HistoryEntry::from_run_summary(
        started_at_unix_secs,
        1500,
        "safe".to_string(),
        Vec::new(),
        &summary(outcomes),
    )
}

#[test]
fn history_panel_shows_the_latest_runs() {
    let history: Vec<_> = (0..7)
        .map(|number| entry(number, vec![("a", OutcomeStatus::Success), ("b", OutcomeStatus::Warn)]))
        .collect();
    let times: Vec<_> = (0..5).map(|number| format!("t{number}")).collect();
    let panel = history_panel_with(&history, &times);
    assert_eq!(panel.title, " Recent Runs ");
    assert_eq!(panel.lines.len(), 5);
    assert_eq!(shown(&panel.lines[0]), "t0  safe  1 / 1 / 0  1500 ms");
    assert_eq!(panel.lines[0].spans[4].style, TextStyle::bold(Color::Yellow));
    let none = history_panel_with(&Vec::new(), &Vec::new());
    assert_eq!(shown_lines(&none), vec!["No runs recorded yet."]);
}

#[test]
fn run_times_are_local_minutes() {
    let label = format_history_time(&entry(1_700_000_000, Vec::new()));
    let parts: Vec<_> = label.split(|c| c == '-' || c == ' ' || c == ':').collect();
    assert_eq!(label.len(), 11);
    assert_eq!(parts.len(), 4);
    assert!(parts.iter().all(|part| part.len() == 2 && part.chars().all(|c| c.is_ascii_digit())));
    assert_eq!(parts[0], "11");
    assert!(label.starts_with("11-14") || label.starts_with("11-15"));
    let minutes = |label: &str| {
        let number = |at: usize| label[at..at + 2].parse::<i64>().expect("number");
        (number(3) * 24 + number(6)) * 60 + number(9)
    };
    let utc = (14 * 24 + 22) * 60 + 13;
    assert!((minutes(&label) - utc).abs() < 24 * 60);
    let later = format_history_time(&entry(1_700_000_060, Vec::new()));
    assert_eq!(minutes(&later), minutes(&label) + 1);
    let hour_later = format_history_time(&entry(1_700_003_600, Vec::new()));
    assert_eq!(minutes(&hour_later), minutes(&label) + 60);
    for secs in [0, 1, 86_399, 951_782_400, 4_102_444_799, 253_402_300_799] {
        assert_eq!(format_history_time(&entry(secs, Vec::new())).len(), 11);
    }
    let far = 9_000_000_000_000_000_000;
    assert_eq!(format_history_time(&entry(far, Vec::new())), "9000000000000000000");
    assert_eq!(label_or_seconds(None, 77), "77");
    assert_eq!(label_or_seconds(Some("01-02 03:04".to_string()), 77), "01-02 03:04");
    let panel = render_history_panel(&vec![entry(5, Vec::new()), entry(far, Vec::new())]);
    assert_eq!(panel.lines[0].spans[0].text, "9000000000000000000");
    assert_eq!(panel.lines[1].spans[0].text.len(), 11);
}

#[test]
fn summary_panel_shows_outcomes() {
    let mut state = AppState::new(catalog_fixture(), default_options());
    assert!(render_summary(&state).lines.is_empty());
    state.finish_run(Ok(summary(vec![
        ("a", OutcomeStatus::Success),
        ("b", OutcomeStatus::Fail),
    ])));
    let panel = render_summary(&state);
    assert_eq!(
        shown_lines(&panel),
        vec!["Run complete.", "", "OK 1   WARN 0   FAIL 1", "", "A OK", "B FAIL"]
    );
    assert_eq!(panel.lines[5].spans[1].style, TextStyle::bold(Color::Red));
    state.finish_run(Err(Failure { context: "broken".to_string(), cause: None }));
    assert_eq!(shown_lines(&render_summary(&state)), vec!["Run failed: broken"]);
}

#[test]
fn activity_panel_shows_what_fits() {
    let mut state = AppState::new(catalog_fixture(), default_options());
    assert_eq!(shown_lines(&render_logs(&state, 10)), vec!["No activity yet."]);
    for number in 0..6 {
        state.handle_runner_event(RunnerEvent::OutputLine {
            task_id: "t".to_string(),
            stream: StreamKind::Stdout,
            line: format!("{number}"),
        });
    }
    assert_eq!(shown_lines(&render_logs(&state, 4)), vec!["[t:out] 4", "[t:out] 5"]);
    assert_eq!(render_logs(&state, 100).lines.len(), 6);
    assert!(render_logs(&state, 1).lines.is_empty());
    state.finish_run(Ok(summary(Vec::new())));
    let panel = render_logs(&state, 6);
    assert!(!panel.trim);
    let lines = shown_lines(&panel);
    assert_eq!(lines.len(), 4);
    assert_eq!(lines[0], "Task output was shown directly in the terminal during the run.");
    assert_eq!(lines[3], "[t:out] 5");
    assert_eq!(render_logs(&state, 0).lines.len(), 3);
}

#[test]
fn footer_shows_message_and_keys() {
    let mut state = AppState::new(catalog_fixture(), default_options());
    let lines: Vec<_> = render_footer(&state).iter().map(shown).collect();
    assert_eq!(lines[0], "Choose tasks, adjust filters, and launch a run.");
    assert!(lines[1].starts_with("j/k move"));
    state.set_status_message("Hello.".to_string());
    assert_eq!(shown(&render_footer(&state)[0]), "Hello.");
    state.prepare_run().expect("prepare run");
    assert_eq!(shown(&render_footer(&state)[1]), "y continue   n cancel");
}

#[test]
fn shown_availability_is_what_a_run_finds() {
    let mut state = AppState::new(grouped_catalog(), default_options());
    let definitions = grouped_catalog();
    for commands in [vec![true, true], vec![true, false]] {
        let around = Surroundings {
            commands,
            paths: vec![true],
            home: Ok("/home/me".to_string()),
            style: PathStyle::Unix,
        };
        let definition = definitions.tasks()[1].clone();
        let report = inspect_preflight(&definition, &around);
        state.apply_preflight("flutter", &report);
        let plan = ExecutionPlan { tasks: vec![definition] };
        let mut log = EventLog::new();
        let mut run =
            runner().run_with_events(&plan, &default_options(), &mut log);
        run.resume(RunInput::Found(around), &mut log);
        match state.tasks()[1].availability {
            AvailabilityState::Available => {
                assert!(matches!(run.phase(), RunPhase::Executing(_)));
            }
            AvailabilityState::WarnUnavailable => panic!("the policy is to fail"),
            AvailabilityState::FailUnavailable => {
                assert_eq!(run.result().expect("over").expect("summary").fail_count, 1);
            }
        }
    }
    assert_eq!(state.tasks()[1].availability, AvailabilityState::FailUnavailable);
}

#[test]
fn styles_tell_states_apart() {
    assert_eq!(
        task_state_style(TaskState::Pending, AvailabilityState::FailUnavailable),
        TextStyle::colored(Color::DarkGray)
    );
    assert_eq!(
        task_state_style(TaskState::Fail, AvailabilityState::Available),
        TextStyle::bold(Color::Red)
    );
    assert_eq!(outcome_style(OutcomeStatus::Success), TextStyle::bold(Color::Green));
    assert_eq!(
        availability_style(AvailabilityState::Available),
        TextStyle::colored(Color::Green)
    );
    assert_eq!(TaskState::Success.label(), "ok");
    assert_eq!(TaskState::Pending.label(), "pending");
}

fn inside(part: Area, area: Area) -> bool {
    part.x >= area.x
        && part.y >= area.y
        && u32::from(part.x) + u32::from(part.width) <= u32::from(area.x) + u32::from(area.width)
        && u32::from(part.y) + u32::from(part.height) <= u32::from(area.y) + u32::from(area.height)
}

fn rounded(percent: u32, whole: u16) -> u32 {
    (percent * u32::from(whole) + 50) / 100
}

#[test]
fn screens_are_split() {
    let screen = Area { x: 0, y: 0, width: 120, height: 50 };
    let areas = frame_areas(screen);
    assert_eq!(areas.title, Area { x: 0, y: 0, width: 120, height: 3 });
    assert_eq!(areas.tasks, Area { x: 0, y: 3, width: 50, height: 35 });
    assert_eq!(areas.detail, Area { x: 50, y: 3, width: 70, height: 35 });
    assert_eq!(areas.logs, Area { x: 0, y: 38, width: 120, height: 10 });
    assert_eq!(areas.footer, Area { x: 0, y: 48, width: 120, height: 2 });
    let (task, profile, history) = detail_areas(areas.detail);
    assert_eq!((task.height, profile.height, history.height), (18, 8, 9));
    let (outcomes, history) = summary_areas(areas.detail);
    assert_eq!((outcomes.height, history.height), (10, 25));
    let popup = centered_rect(68, 45, screen);
    assert!(inside(popup, screen));
    assert_eq!((popup.width, popup.height), (82, 22));
    assert_eq!(
        make_centered_shares(45),
        vec![Share::Percentage(27), Share::Percentage(45), Share::Percentage(27)]
    );
}

#[test]
fn every_screen_is_split_in_order() {
    let sizes: [u16; 14] = [0, 1, 2, 3, 5, 15, 16, 30, 31, 32, 33, 80, 113, 200];
    for x in [0, 7] {
        for y in [0, 9] {
            for width in sizes {
                for height in sizes {
                    let screen = Area { x, y, width, height };
                    let areas = frame_areas(screen);
                    let parts =
                        [areas.title, areas.tasks, areas.detail, areas.logs, areas.footer];
                    assert!(parts.iter().all(|part| inside(*part, screen)));
                    assert_eq!(areas.title.y, y);
                    assert_eq!(areas.tasks.y, areas.title.y + areas.title.height);
                    assert_eq!(areas.logs.y, areas.tasks.y + areas.tasks.height);
                    assert_eq!(areas.footer.y, areas.logs.y + areas.logs.height);
                    assert_eq!(areas.tasks.x, x);
                    assert_eq!(areas.detail.x, areas.tasks.x + areas.tasks.width);
                    assert_eq!(u32::from(areas.tasks.width), rounded(42, width));
                    assert_eq!(areas.detail.width, width - areas.tasks.width);
                    if height >= 31 {
                        assert_eq!(areas.title.height, 3);
                        assert_eq!(areas.tasks.height, height - 15);
                        assert_eq!(areas.logs.height, 10);
                        assert_eq!(areas.footer.height, 2);
                    }
                    let (task, profile, history) = detail_areas(screen);
                    assert_eq!(task.y, y);
                    assert_eq!(profile.y, task.y + task.height);
                    assert_eq!(history.y, profile.y + profile.height);
                    assert!([task, profile, history].iter().all(|part| inside(*part, screen)));
                    assert!([task, profile, history].iter().all(|part| part.width == width));
                    if height >= 32 {
                        assert_eq!(
                            (task.height, profile.height, history.height),
                            (18, 8, height - 26)
                        );
                    }
                    let (outcomes, history) = summary_areas(screen);
                    assert!(inside(outcomes, screen) && inside(history, screen));
                    assert_eq!((outcomes.y, history.y), (y, outcomes.y + outcomes.height));
                    if height >= 16 {
                        assert_eq!((outcomes.height, history.height), (10, height - 10));
                    }
                    for (px, py) in [(68u32, 45u32), (0, 100), (100, 0), (33, 50), (1, 99)] {
                        let popup = centered_rect(px as u16, py as u16, screen);
                        assert!(inside(popup, screen));
                        let (left, above) = ((100 - px) / 2, (100 - py) / 2);
                        assert_eq!(u32::from(popup.x - x), rounded(left, width));
                        assert_eq!(u32::from(popup.y - y), rounded(above, height));
                        let right = u32::from(popup.x - x + popup.width);
                        assert_eq!(right, rounded(left + px, width));
                        let below = u32::from(popup.y - y + popup.height);
                        assert_eq!(below, rounded(above + py, height));
                    }
                }
            }
        }
    }
}

#[test]
fn low_screens_put_the_main_parts_first() {
    for height in 0..=40u16 {
        for width in [1, 80, 120] {
            let screen = Area { x: 3, y: 2, width, height };
            let areas = frame_areas(screen);
            if height < 31 {
                assert_eq!(areas.tasks.height, height.min(16));
                let rest = height - areas.tasks.height;
                assert_eq!(areas.title.height, rest.min(3));
                assert_eq!(areas.footer.height, ((rest - areas.title.height) / 2).min(2));
            }
            let rows = [areas.title, areas.tasks, areas.logs, areas.footer];
            assert_eq!(rows.iter().map(|row| row.height).sum::<u16>(), height);
            let (task, profile, history) = detail_areas(screen);
            if height < 32 {
                assert_eq!(history.height, height.min(6));
                assert_eq!(profile.height, ((height - history.height) / 2).min(8));
            }
            assert_eq!(task.height + profile.height + history.height, height);
            let (outcomes, history) = summary_areas(screen);
            if height < 16 {
                assert_eq!(history.height, height.min(6));
            }
            assert_eq!(outcomes.height, height - history.height);
        }
    }
    let ordinary = frame_areas(Area { x: 0, y: 0, width: 80, height: 24 });
    let rows = [ordinary.title, ordinary.tasks, ordinary.logs, ordinary.footer];
    assert_eq!(rows.map(|row| row.height), [3, 16, 3, 2]);
    let (task, profile, history) = detail_areas(Area { x: 0, y: 0, width: 40, height: 24 });
    assert_eq!((task.height, profile.height, history.height), (10, 8, 6));
}

#[test]
fn every_screen_has_its_panels() {
    let column = vec![PanelKind::Task, PanelKind::Profile, PanelKind::History, PanelKind::Activity];
    assert_eq!(panels_of(Screen::Select), column);
    assert_eq!(panels_of(Screen::Running), column);
    let mut with_confirmation = column.clone();
    with_confirmation.push(PanelKind::Confirmation);
    assert_eq!(panels_of(Screen::ConfirmDangerous), with_confirmation);
    assert_eq!(
        panels_of(Screen::Summary),
        vec![PanelKind::Outcomes, PanelKind::History, PanelKind::Activity]
    );

    let screen = Area { x: 0, y: 0, width: 120, height: 50 };
    for kind in [Screen::Select, Screen::ConfirmDangerous, Screen::Running, Screen::Summary] {
        let placement = place_panels(kind, screen);
        assert_eq!(placement.panels.len(), panels_of(kind).len());
        assert!(placement.panels.iter().all(|area| inside(*area, screen)));
        assert_eq!(placement.frame, frame_areas(screen));
    }
    let asked = place_panels(Screen::ConfirmDangerous, screen);
    assert_eq!(asked.panels[3], asked.frame.logs);
    assert_eq!(asked.panels[4], centered_rect(68, 45, screen));
    let ended = place_panels(Screen::Summary, screen);
    assert_eq!((ended.panels[0], ended.panels[1]), summary_areas(ended.frame.detail));
}

#[test]
fn panels_show_their_subject() {
    let mut state = AppState::new(grouped_catalog(), default_options());
    state.prepare_run().expect("prepared");
    let height = 10;
    assert_eq!(render_panel(&state, PanelKind::Task, height), render_task_detail(&state));
    assert_eq!(render_panel(&state, PanelKind::Profile, height), render_profile_panel(&state));
    assert_eq!(render_panel(&state, PanelKind::Outcomes, height), render_summary(&state));
    assert_eq!(render_panel(&state, PanelKind::Activity, height), render_logs(&state, height));
    assert_eq!(render_panel(&state, PanelKind::Confirmation, height), render_confirmation(&state));
    assert_eq!(
        render_panel(&state, PanelKind::History, height),
        render_history_panel(state.history())
    );
}

#[test]
fn copies_go_their_own_way() {
    let mut state = AppState::new(grouped_catalog(), default_options());
    state.cycle_scope_filter();
    state.prepare_run().expect("prepared");
    state.handle_runner_event(RunnerEvent::TaskStarted {
        task_id: "brew".to_string(),
        label: "Homebrew".to_string(),
    });
    let mut copy = state.clone();
    assert_eq!(format!("{copy:?}"), format!("{state:?}"));
    assert!(copy.confirm_run().is_some());
    assert_eq!(copy.screen(), Screen::Running);
    assert_eq!(state.screen(), Screen::ConfirmDangerous);
    assert_eq!(state.logs().len(), 1);
}

#[test]
fn switching_a_flag_twice_changes_nothing_else() {
    let mut state = AppState::new(grouped_catalog(), default_options());
    state.move_next();
    state.toggle_selected_category_filter();
    state.toggle_verbose();
    let before = format!("{state:?}");
    state.toggle_dry_run();
    assert!(state.options().dry_run);
    assert!(state.options().verbose);
    assert_eq!(state.selected_index(), 1);
    state.toggle_dry_run();
    assert_eq!(format!("{state:?}"), before);
    state.prepare_run().expect("prepared");
    let waiting = format!("{state:?}");
    state.toggle_dry_run();
    assert_eq!(format!("{state:?}"), waiting);
}

#[test]
fn confirming_starts_the_latest_plan_once() {
    let mut state = AppState::new(grouped_catalog(), default_options());
    assert!(state.confirm_run().is_none());
    assert!(state.prepare_run().expect("prepared").is_none());
    state.cancel_confirmation();
    assert!(state.confirm_run().is_none());
    state.select_all();
    assert!(state.prepare_run().expect("prepared").is_none());
    state.move_next();
    state.clear_filters();
    state.set_status_message("busy".to_string());
    let plan = state.confirm_run().expect("plan");
    let ids: Vec<_> = plan.tasks.iter().map(|task| task.id.as_str()).collect();
    assert_eq!(ids, vec!["brew", "flutter", "node", "npm-tools"]);
    assert_eq!(state.screen(), Screen::Running);
    assert!(state.confirm_run().is_none());

    assert!(state.prepare_run().expect("prepared").is_none());
    state.record_run(completed(Err("late".to_string())));
    assert_eq!(state.screen(), Screen::Summary);
    assert!(state.confirm_run().is_none());
}

#[test]
fn the_cursor_stays_on_a_visible_task() {
    let mut state = AppState::new(grouped_catalog(), default_options());
    state.cycle_scope_filter();
    assert_eq!(state.selected_index(), 0);
    state.move_next();
    state.toggle_current();
    assert_eq!(selected(&state), vec!["brew"]);
    assert_eq!(state.selected_index(), 0);
    state.select_all();
    assert_eq!(state.selected_index(), 0);
    state.clear_selection();
    assert!(state.selected_visible_task().is_none());
    state.clear_filters();
    assert_eq!(state.selected_visible_task().map(|task| task.id.as_str()), Some("brew"));
}

#[test]
fn the_largest_screens_are_split() {
    for (width, height) in [(u16::MAX, u16::MAX), (65_000, 40_000), (40_000, 31)] {
        let screen =
            Area { x: u16::MAX - width, y: u16::MAX - height, width, height };
        let areas = frame_areas(screen);
        assert_eq!(areas.title.height, 3);
        assert_eq!(areas.tasks.height, height - 15);
        assert!(inside(areas.detail, screen));
        assert_eq!(u32::from(areas.tasks.width), rounded(42, width));
        assert!(inside(centered_rect(68, 45, screen), screen));
    }
}

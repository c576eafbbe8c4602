use upgrade_cockpit::app::{
    action_for, list_lines, plan_lines, run_verdict, summary_lines, Action,
};
use upgrade_cockpit::catalog::{Catalog, TaskDefinition, TaskPreflight, TaskRunner};
use upgrade_cockpit::cli::{Cli, Command};
use upgrade_cockpit::failure::Failure;
use upgrade_cockpit::paths::PathStyle;
use upgrade_cockpit::persistence::{
    state_path_in, HistoryEntry, HistorySummary, PersistedProfile, PersistedState,
    PersistenceStore, SaveStep, StoredState, MAX_HISTORY_ENTRIES,
};
use upgrade_cockpit::profiles::{built_in_profiles, ProfileDefinition, CUSTOM_PROFILE_ID};
use upgrade_cockpit::runner::{OutcomeStatus, RunOptions, RunSummary, TaskOutcome};
use upgrade_cockpit::text::{decimal, join, signed_decimal, strip_prefix, text_less};
use upgrade_cockpit::workspace::{discover_root, find_root, RootCandidate};

fn history_entry(started_at_unix_secs: u64) -> HistoryEntry {
    HistoryEntry {
        started_at_unix_secs,
        duration_ms: 42,
        profile_id: "custom".to_string(),
        selected_tasks: vec!["brew".to_string()],
        summary: HistorySummary {
            ok_count: 1,
            warn_count: 0,
            fail_count: 0,
            outcome_labels: vec!["Homebrew:OK".to_string()],
        },
    }
}

fn candidate(path: &str, has_tasks: bool) -> RootCandidate {
    RootCandidate { path: path.to_string(), has_tasks }
}

fn outcome(id: &str, label: &str, status: OutcomeStatus) -> TaskOutcome {
    TaskOutcome { id: id.to_string(), label: label.to_string(), status }
}

#[test]
fn saves_and_loads_state() {
    let store = PersistenceStore::new("/tmp/work/state.toml".to_string());
    let state = PersistedState {
        active_profile_id: "safe".to_string(),
        custom_profile: PersistedProfile {
            selected_tasks: vec!["brew".to_string(), "rust".to_string()],
            options: RunOptions { dry_run: true, ..RunOptions::default() },
        },
        history: vec![history_entry(1)],
        ..PersistedState::default()
    };

    let plan = store.save(PathStyle::Unix, &state).expect("save state");
    assert_eq!(plan.directory, "/tmp/work");
    let loaded = store.load(StoredState::Parsed(plan.state)).expect("load state");

    assert_eq!(loaded.active_profile_id, "safe");
    assert_eq!(
        loaded.custom_profile.selected_tasks,
        vec!["brew".to_string(), "rust".to_string()]
    );
    assert!(loaded.custom_profile.options.dry_run);
    assert_eq!(loaded.history.len(), 1);
}

#[test]
fn trims_history_on_save() {
    let store = PersistenceStore::new("/tmp/work/state.toml".to_string());
    let mut state = PersistedState::default();
    state.history =
        (0..(MAX_HISTORY_ENTRIES + 3)).map(|index| history_entry(index as u64)).collect();

    let plan = store.save(PathStyle::Unix, &state).expect("save state");
    let loaded = store.load(StoredState::Parsed(plan.state)).expect("load state");

    assert_eq!(loaded.history.len(), MAX_HISTORY_ENTRIES);
    assert_eq!(loaded.history.first().expect("first").started_at_unix_secs, 3);
}

#[test]
fn builds_history_from_run_summary() {
    let summary = RunSummary {
        outcomes: vec![
            outcome("brew", "Homebrew", OutcomeStatus::Success),
            outcome("flutter", "Flutter", OutcomeStatus::Warn),
        ],
        ok_count: 1,
        warn_count: 1,
        fail_count: 0,
    };

    let entry = HistoryEntry::from_run_summary(
        123,
        456,
        "safe".to_string(),
        vec!["brew".to_string()],
        &summary,
    );

    assert_eq!(entry.summary.warn_count, 1);
    assert_eq!(entry.summary.overall_status(), OutcomeStatus::Warn);
    assert_eq!(
        entry.summary.outcome_labels,
        vec!["Homebrew:OK".to_string(), "Flutter:WARN".to_string()]
    );
    assert_eq!(entry.started_at_unix_secs, 123);
    assert_eq!(entry.duration_ms, 456);
}

#[test]
fn trimming_again_changes_nothing() {
    let mut state = PersistedState::default();
    state.history = (0..25).map(history_entry).collect();
    state.trim_history();
    let once = state.clone();
    state.trim_history();
    assert_eq!(state, once);
    assert_eq!(state.history.last().expect("last").started_at_unix_secs, 24);

    let mut short = PersistedState::default();
    short.history = (0..3).map(history_entry).collect();
    short.trim_history();
    assert_eq!(short.history.len(), 3);
}

#[test]
fn loading_says_what_went_wrong() {
    let store = PersistenceStore::new("/s/state.toml".to_string());
    assert_eq!(store.path(), "/s/state.toml");
    assert_eq!(store.load(StoredState::Missing), Ok(PersistedState::default()));
    let failure = store.load(StoredState::Unreadable("denied".to_string())).expect_err("unread");
    assert_eq!(failure.full_message(), "failed to read /s/state.toml: denied");
    let failure = store.load(StoredState::Unparsable("line 1".to_string())).expect_err("unparsed");
    assert_eq!(failure.message(), "failed to parse /s/state.toml");
}

#[test]
fn saving_says_what_went_wrong() {
    let store = PersistenceStore::new("/".to_string());
    let failure = store.save(PathStyle::Unix, &PersistedState::default()).expect_err("no parent");
    assert_eq!(failure.message(), "/ has no parent directory");
    let store = PersistenceStore::new("/s/state.toml".to_string());
    let create = store.save_failure("/s", SaveStep::CreateDirectory, "full".to_string());
    assert_eq!(create.full_message(), "failed to create /s: full");
    let serialize = store.save_failure("/s", SaveStep::Serialize, "odd".to_string());
    assert_eq!(serialize.full_message(), "failed to serialize state: odd");
    let write = store.save_failure("/s", SaveStep::Write, "full".to_string());
    assert_eq!(write.full_message(), "failed to write /s/state.toml: full");
}

#[test]
fn initial_state_is_empty_and_custom() {
    let state = PersistedState::default();
    assert_eq!(state.version, 1);
    assert_eq!(state.active_profile_id, "custom");
    assert!(state.custom_profile.selected_tasks.is_empty());
    assert_eq!(state.custom_profile.options, RunOptions::default());
    assert!(state.history.is_empty());
}

#[test]
fn the_default_path_is_in_the_configuration_directory() {
    assert_eq!(
        state_path_in(PathStyle::Unix, Some("/home/me/.config/app".to_string())),
        Ok("/home/me/.config/app/state.toml".to_string())
    );
    let failure = state_path_in(PathStyle::Unix, None).expect_err("no directory");
    assert_eq!(failure.message(), "could not determine a config directory for upgrade-cockpit");
    match PersistenceStore::default_path(PathStyle::Unix) {
        Ok(path) => {
            assert!(path.ends_with("/state.toml"));
            assert!(path.contains("upgrade-cockpit"));
        }
        Err(failure) => assert!(failure.message().contains("config directory")),
    }
}

#[test]
fn overall_status_is_the_worst() {
    let summary = |ok, warn, fail| HistorySummary {
        ok_count: ok,
        warn_count: warn,
        fail_count: fail,
        outcome_labels: Vec::new(),
    };
    assert_eq!(summary(3, 0, 0).overall_status(), OutcomeStatus::Success);
    assert_eq!(summary(3, 1, 0).overall_status(), OutcomeStatus::Warn);
    assert_eq!(summary(3, 1, 1).overall_status(), OutcomeStatus::Fail);
    assert_eq!(summary(0, 0, 0).overall_status(), OutcomeStatus::Success);
}

#[test]
fn includes_expected_built_in_profiles() {
    let ids: Vec<_> = built_in_profiles().into_iter().map(|profile| profile.id).collect();
    assert_eq!(
        ids,
        vec![
            "full".to_string(),
            "safe".to_string(),
            "toolchains".to_string(),
            "package-managers".to_string()
        ]
    );
}

#[test]
fn builds_custom_profile() {
    let profile = ProfileDefinition::custom(vec!["brew".to_string()], RunOptions::default());
    assert_eq!(profile.id, CUSTOM_PROFILE_ID);
    assert_eq!(profile.selected_tasks, vec!["brew".to_string()]);
    assert_eq!(profile.label, "Custom");
}

#[test]
fn profiles_select_their_tasks() {
    let profiles = built_in_profiles();
    assert_eq!(
        profiles[0].selected_tasks,
        vec!["rust", "julia", "brew", "flutter", "node", "sdkman", "npm-tools"]
    );
    assert!(!profiles[1].selected_tasks.contains(&"flutter".to_string()));
    assert_eq!(profiles[3].label, "Package Managers");
    assert_eq!(profiles[3].selected_tasks, vec!["brew", "node", "npm-tools"]);
    assert!(profiles.iter().all(|profile| profile.options == RunOptions::default()));
}

#[test]
fn accepts_explicit_root() {
    let root = candidate("/tmp/project", true);
    let discovered =
        discover_root(Some(&root), Ok(Vec::new()), Ok(Vec::new())).expect("discover root");
    assert_eq!(discovered, "/tmp/project");
}

#[test]
fn rejects_root_without_tasks_dir() {
    let root = candidate("/tmp/project", false);
    let error = discover_root(Some(&root), Ok(vec![candidate("/", true)]), Ok(Vec::new()))
        .expect_err("should fail");
    assert!(error.message().contains("tasks directory"));
    assert_eq!(error.message(), "/tmp/project does not contain a tasks directory");
}

#[test]
fn looks_upwards_from_the_current_directory_first() {
    let current = vec![candidate("/a/b", false), candidate("/a", true), candidate("/", true)];
    let executable = vec![candidate("/opt", true)];
    assert_eq!(find_root(&current), Some("/a".to_string()));
    assert_eq!(discover_root(None, Ok(current), Ok(executable)), Ok("/a".to_string()));
}

#[test]
fn looks_upwards_from_the_executable_second() {
    let current = vec![candidate("/a", false), candidate("/", false)];
    let executable = vec![candidate("/opt/bin", false), candidate("/opt", true)];
    assert_eq!(discover_root(None, Ok(current), Ok(executable)), Ok("/opt".to_string()));
}

#[test]
fn reports_where_no_root_is_found() {
    let error = discover_root(None, Ok(Vec::new()), Ok(vec![candidate("/", false)]))
        .expect_err("nothing");
    assert_eq!(
        error.message(),
        "could not locate a project root containing a tasks directory"
    );
    let gone = Failure { context: "no such directory".to_string(), cause: None };
    assert_eq!(
        discover_root(None, Err(gone.clone()), Ok(vec![candidate("/", true)])),
        Err(gone.clone())
    );
    assert_eq!(discover_root(None, Ok(Vec::new()), Err(gone.clone())), Err(gone));
}

fn task(id: &str, dangerous: bool, default_selected: bool) -> TaskDefinition {
    TaskDefinition {
        id: id.to_string(),
        label: format!("Task {id}"),
        description: String::new(),
        category: "general".to_string(),
        tags: Vec::new(),
        notes: Vec::new(),
        default_selected,
        dangerous,
        danger_message: None,
        dependencies: Vec::new(),
        env: Default::default(),
        preflight: TaskPreflight::default(),
        runner: TaskRunner::Command { program: "true".to_string(), args: Vec::new() },
    }
}

fn catalog() -> Catalog {
    Catalog::from_task_definitions(vec![
        task("b", true, false),
        task("a", false, true),
    ])
    .expect("catalog")
}

#[test]
fn listing_marks_dangerous_tasks() {
    assert_eq!(list_lines(catalog().tasks()), vec!["a - Task a", "b - Task b [dangerous]"]);
    let plan = catalog().plan(true, &Vec::new()).expect("plan");
    assert_eq!(plan_lines(&plan), vec!["a - Task a", "b - Task b"]);
}

#[test]
fn commands_become_actions() {
    let catalog = catalog();
    assert_eq!(
        action_for(&catalog, &Command::List),
        Ok(Action::Show(vec!["a - Task a".to_string(), "b - Task b [dangerous]".to_string()]))
    );
    assert_eq!(
        action_for(&catalog, &Command::Plan { all: false, tasks: Vec::new() }),
        Ok(Action::Show(vec!["a - Task a".to_string()]))
    );
    match action_for(&catalog, &Command::Run { all: false, tasks: vec!["b".to_string()] }) {
        Ok(Action::Execute(plan)) => assert_eq!(plan.tasks[0].id, "b"),
        other => panic!("unexpected action: {other:?}"),
    }
    assert_eq!(action_for(&catalog, &Command::Tui), Ok(Action::OpenCockpit));
    let unknown = Command::Plan { all: false, tasks: vec!["x".to_string()] };
    assert!(action_for(&catalog, &unknown).is_err());
}

#[test]
fn summaries_are_shown_and_judged() {
    let summary = RunSummary {
        outcomes: vec![
            outcome("a", "A", OutcomeStatus::Success),
            outcome("b", "B", OutcomeStatus::Fail),
        ],
        ok_count: 11,
        warn_count: 0,
        fail_count: 1,
    };
    assert_eq!(
        summary_lines(&summary),
        vec!["", "Summary: 11 OK, 0 WARN, 1 FAIL", "- A: OK", "- B: FAIL"]
    );
    let failure = run_verdict(&summary).expect_err("a task failed");
    assert_eq!(failure.message(), "one or more tasks failed");
    let fine = RunSummary { outcomes: Vec::new(), ok_count: 0, warn_count: 3, fail_count: 0 };
    assert!(run_verdict(&fine).is_ok());
}

#[test]
fn without_a_command_the_cockpit_opens_where_somebody_is_there() {
    let cli = Cli {
        root: None,
        dry_run: true,
        verbose: false,
        brew_cleanup: true,
        npm_audit: false,
        command: None,
    };
    assert_eq!(cli.request(true), Command::Tui);
    assert_eq!(cli.request(false), Command::Run { all: false, tasks: Vec::new() });
    assert_eq!(
        cli.options(),
        RunOptions { dry_run: true, verbose: false, brew_cleanup: true, npm_audit: false }
    );
    let list = Cli { command: Some(Command::List), ..cli };
    assert_eq!(list.request(true), Command::List);
}

#[test]
fn texts_are_ordered_joined_and_numbered() {
    assert!(text_less("", "a"));
    assert!(text_less("a", "ab"));
    assert!(text_less("Z", "a"));
    assert!(!text_less("b", "a"));
    assert!(!text_less("a", "a"));
    for (left, right) in [("\u{e9}", "z"), ("\u{ffff}", "\u{10000}"), ("ab", "b")] {
        assert_eq!(text_less(left, right), left < right);
    }
    assert_eq!(join(&vec!["a".to_string(), "b".to_string(), "c".to_string()], ", "), "a, b, c");
    assert_eq!(join(&Vec::new(), ", "), "");
    assert_eq!(decimal(0), "0");
    assert_eq!(decimal(u64::MAX), "18446744073709551615");
    assert_eq!(signed_decimal(i32::MIN), "-2147483648");
    assert_eq!(signed_decimal(7), "7");
    assert_eq!(strip_prefix("~/a", "~/"), Some("a".to_string()));
    assert_eq!(strip_prefix("a", "~/"), None);
}

use upgrade_cockpit::catalog::{
    default_category, default_shell, default_true, is_manifest_extension, Catalog, CatalogError,
    MissingRequirementPolicy, TaskDefinition, TaskPreflight, TaskRunner,
};
use upgrade_cockpit::paths::{join_path, parent_path, PathStyle};

fn texts(value: Option<&toml::Value>) -> Vec<String> {
    match value.and_then(|list| list.as_array()) {
        Some(list) => list
            .iter()
            .map(|item| item.as_str().expect("string").to_string())
            .collect(),
        None => Vec::new(),
    }
}

fn text(table: &toml::Value, key: &str) -> Option<String> {
    table.get(key).and_then(|value| value.as_str()).map(|value| value.to_string())
}

fn manifest(contents: &str) -> TaskDefinition {
    let table: toml::Value = toml::from_str(contents).expect("parse manifest");
    let runner = table.get("runner").expect("runner");
    let args = texts(runner.get("args"));
    let runner = if text(runner, "kind").expect("kind") == "script" {
        TaskRunner::Script {
            path: text(runner, "path").expect("path"),
            shell: text(runner, "shell").unwrap_or_else(default_shell),
            args,
        }
    } else {
        TaskRunner::Command { program: text(runner, "program").expect("program"), args }
    };
    TaskDefinition {
        id: text(&table, "id").expect("id"),
        label: text(&table, "label").expect("label"),
        description: text(&table, "description").unwrap_or_default(),
        category: text(&table, "category").unwrap_or_else(default_category),
        tags: texts(table.get("tags")),
        notes: texts(table.get("notes")),
        default_selected: table
            .get("default_selected")
            .and_then(|value| value.as_bool())
            .unwrap_or_else(default_true),
        dangerous: table.get("dangerous").and_then(|value| value.as_bool()).unwrap_or_default(),
        danger_message: text(&table, "danger_message"),
        dependencies: texts(table.get("dependencies")),
        env: Default::default(),
        preflight: TaskPreflight::default(),
        runner,
    }
}

fn load(manifests: Vec<&str>) -> Result<Catalog, CatalogError> {
    Catalog::load_from_tasks_dir(
        "/work/tasks",
        manifests.into_iter().map(|contents| Ok(manifest(contents))).collect(),
    )
}

fn simple(id: &str, dependencies: &[&str]) -> TaskDefinition {
    TaskDefinition {
        id: id.to_string(),
        label: id.to_uppercase(),
        description: String::new(),
        category: "general".to_string(),
        tags: Vec::new(),
        notes: Vec::new(),
        default_selected: true,
        dangerous: false,
        danger_message: None,
        dependencies: dependencies.iter().map(|id| id.to_string()).collect(),
        env: Default::default(),
        preflight: TaskPreflight::default(),
        runner: TaskRunner::Command { program: "echo".to_string(), args: vec![id.to_string()] },
    }
}

fn planned_ids(catalog: &Catalog, all: bool, requested: &[&str]) -> Vec<String> {
    let requested = requested.iter().map(|id| id.to_string()).collect();
    let plan = catalog.plan(all, &requested).expect("plan");
    plan.tasks.into_iter().map(|task| task.id).collect()
}

#[test]
fn loads_task_manifests() {
    let catalog = load(vec![
        r#"
                id = "rust"
                label = "Rust"

                [runner]
                kind = "command"
                program = "rustup"
                args = ["update"]
            "#,
    ])
    .expect("load catalog");
    let tasks = catalog.tasks();
    assert_eq!(tasks.len(), 1);
    assert_eq!(tasks[0].id, "rust");
}

#[test]
fn plans_default_tasks_with_dependencies() {
    let catalog = load(vec![
        r#"
                id = "base"
                label = "Base"
                default_selected = false

                [runner]
                kind = "command"
                program = "echo"
                args = ["base"]
            "#,
        r#"
                id = "app"
                label = "App"
                dependencies = ["base"]

                [runner]
                kind = "command"
                program = "echo"
                args = ["app"]
            "#,
    ])
    .expect("load catalog");
    let plan = catalog.plan(false, &Vec::new()).expect("plan");
    let ids: Vec<_> = plan.tasks.into_iter().map(|task| task.id).collect();
    assert_eq!(ids, vec!["base".to_string(), "app".to_string()]);
}

#[test]
fn rejects_unknown_requested_task() {
    let catalog = load(vec![
        r#"
                id = "rust"
                label = "Rust"

                [runner]
                kind = "command"
                program = "rustup"
                args = ["update"]
            "#,
    ])
    .expect("load catalog");
    let error = catalog.plan(false, &vec![String::from("missing")]).expect_err("should fail");
    assert!(error.message().contains("unknown task"));
    assert_eq!(error, CatalogError::UnknownTask("missing".to_string()));
}

#[test]
fn detects_dependency_cycle() {
    let catalog = load(vec![
        r#"
                id = "a"
                label = "Task A"
                dependencies = ["b"]

                [runner]
                kind = "command"
                program = "echo"
                args = ["a"]
            "#,
        r#"
                id = "b"
                label = "Task B"
                default_selected = false
                dependencies = ["a"]

                [runner]
                kind = "command"
                program = "echo"
                args = ["b"]
            "#,
    ])
    .expect("load catalog");
    let error = catalog.plan(false, &vec![String::from("a")]).expect_err("should fail");
    assert!(error.message().contains("dependency cycle"));
    assert_eq!(error.message(), "dependency cycle detected at task a");
}

#[test]
fn rejects_duplicate_ids() {
    let error = load(vec![
        r#"
                id = "rust"
                label = "Rust A"

                [runner]
                kind = "command"
                program = "echo"
                args = ["a"]
            "#,
        r#"
                id = "rust"
                label = "Rust B"

                [runner]
                kind = "command"
                program = "echo"
                args = ["b"]
            "#,
    ])
    .expect_err("should fail");
    assert!(error.message().contains("duplicate task id"));
    assert_eq!(error.message(), "duplicate task id rust");
}

#[test]
fn rejects_unknown_dependencies() {
    let error = load(vec![
        r#"
                id = "rust"
                label = "Rust"
                dependencies = ["missing"]

                [runner]
                kind = "command"
                program = "echo"
                args = ["rust"]
            "#,
    ])
    .expect_err("should fail");
    assert!(error.message().contains("unknown dependency"));
    assert_eq!(error.message(), "task rust references unknown dependency missing");
}

#[test]
fn a_directory_without_manifests_is_refused() {
    let error = load(Vec::new()).expect_err("should fail");
    assert_eq!(error.message(), "no task manifests found in /work/tasks");
    assert!(Catalog::from_task_definitions(Vec::new()).is_ok());
}

#[test]
fn a_root_is_loaded_from_its_tasks_directory() {
    let error = Catalog::load_from_root(PathStyle::Unix, "/work", Vec::new()).expect_err("should fail");
    assert_eq!(error, CatalogError::NoManifests("/work/tasks".to_string()));
}

#[test]
fn the_first_unreadable_manifest_is_reported() {
    let error = Catalog::load_from_tasks_dir(
        "tasks",
        vec![
            Ok(simple("a", &[])),
            Err("failed to parse tasks/b.toml: expected value".to_string()),
            Err("failed to read tasks/c.toml".to_string()),
        ],
    )
    .expect_err("should fail");
    assert_eq!(error.message(), "failed to parse tasks/b.toml: expected value");
}

#[test]
fn tasks_are_kept_by_ascending_id() {
    let catalog = Catalog::from_task_definitions(vec![
        simple("node", &[]),
        simple("Zed", &[]),
        simple("brew", &[]),
        simple("brew-cask", &[]),
    ])
    .expect("catalog");
    let ids: Vec<_> = catalog.tasks().iter().map(|task| task.id.as_str()).collect();
    assert_eq!(ids, vec!["Zed", "brew", "brew-cask", "node"]);
}

#[test]
fn reading_order_does_not_matter() {
    let first = Catalog::from_task_definitions(vec![simple("a", &["b"]), simple("b", &[])]);
    let second = Catalog::from_task_definitions(vec![simple("b", &[]), simple("a", &["b"])]);
    assert_eq!(first.expect("first").tasks(), second.expect("second").tasks());
}

#[test]
fn plans_run_each_task_once_after_its_dependencies() {
    let catalog = Catalog::from_task_definitions(vec![
        simple("a", &["d", "c"]),
        simple("b", &["d"]),
        simple("c", &["d"]),
        simple("d", &[]),
        simple("e", &[]),
    ])
    .expect("catalog");
    assert_eq!(planned_ids(&catalog, false, &["a", "b"]), vec!["d", "c", "a", "b"]);
    assert_eq!(planned_ids(&catalog, false, &["b", "a", "b"]), vec!["d", "c", "a", "b"]);
    assert_eq!(planned_ids(&catalog, true, &["unknown"]), vec!["d", "c", "a", "b", "e"]);
}

#[test]
fn tasks_outside_a_cycle_can_still_be_planned() {
    let catalog = Catalog::from_task_definitions(vec![
        simple("a", &["b"]),
        simple("b", &["b"]),
        simple("c", &[]),
    ])
    .expect("catalog");
    assert_eq!(planned_ids(&catalog, false, &["c"]), vec!["c"]);
    let error = catalog.plan(false, &vec!["a".to_string()]).expect_err("cycle");
    assert_eq!(error, CatalogError::DependencyCycle("b".to_string()));
}

#[test]
fn manifests_have_the_toml_extension() {
    assert!(is_manifest_extension(Some("toml")));
    assert!(!is_manifest_extension(Some("TOML")));
    assert!(!is_manifest_extension(Some("md")));
    assert!(!is_manifest_extension(None));
}

#[test]
fn manifests_have_defaults() {
    let task = manifest("id = \"x\"\nlabel = \"X\"\n[runner]\nkind = \"script\"\npath = \"x.zsh\"\n");
    assert!(task.default_selected);
    assert_eq!(task.category, "general");
    assert_eq!(task.preflight.on_missing, MissingRequirementPolicy::Warn);
    assert_eq!(
        task.runner,
        TaskRunner::Script {
            path: "x.zsh".to_string(),
            shell: "zsh".to_string(),
            args: Vec::new(),
        }
    );
}

#[test]
fn paths_are_joined_with_one_separator() {
    assert_eq!(join_path(PathStyle::Unix, "/work", "scripts/a.sh"), "/work/scripts/a.sh");
    assert_eq!(join_path(PathStyle::Unix, "/work/", "a.sh"), "/work/a.sh");
    assert_eq!(join_path(PathStyle::Unix, "/work", "/bin/sh"), "/bin/sh");
    assert_eq!(join_path(PathStyle::Unix, "", "a.sh"), "a.sh");
    for base in ["/work", "/work/", "", "a", "/"] {
        for path in ["b", "/b", "", "b/c"] {
            let expected = std::path::Path::new(base).join(path);
            assert_eq!(join_path(PathStyle::Unix, base, path), expected.to_str().expect("utf-8"));
        }
    }
}

#[test]
fn requests_for_the_same_tasks_are_answered_alike() {
    let catalog = Catalog::from_task_definitions(vec![
        simple("a", &["b"]),
        simple("b", &[]),
        simple("c", &[]),
    ])
    .expect("catalog");
    assert_eq!(planned_ids(&catalog, false, &["c", "a"]), planned_ids(&catalog, false, &["a", "c", "a"]));
    assert_eq!(planned_ids(&catalog, false, &[]), vec!["b", "a", "c"]);
    let ask = |ids: &[&str]| {
        let ids = ids.iter().map(|id| id.to_string()).collect();
        catalog.plan(false, &ids).expect_err("unknown")
    };
    assert_eq!(ask(&["a", "x"]), CatalogError::UnknownTask("x".to_string()));
    assert_eq!(ask(&["x", "a", "x"]), CatalogError::UnknownTask("x".to_string()));
    assert_eq!(ask(&["y", "x"]), CatalogError::UnknownTask("y".to_string()));
}

/// All texts of up to this many of these characters.
fn texts_of(alphabet: &[char], length: usize) -> Vec<String> {
    let mut all = vec![String::new()];
    let mut latest = all.clone();
    for _ in 0..length {
        latest = latest
            .iter()
            .flat_map(|text| alphabet.iter().map(move |c| format!("{text}{c}")))
            .collect();
        all.extend(latest.iter().cloned());
    }
    all
}

#[test]
fn unix_paths_are_those_of_the_system() {
    let texts = texts_of(&['/', '.', 'a', '\\'], 4);
    for base in &texts {
        for part in &texts {
            let expected = std::path::Path::new(base).join(part);
            assert_eq!(
                join_path(PathStyle::Unix, base, part),
                expected.to_str().expect("utf-8")
            );
        }
    }
    for path in texts_of(&['/', '.', 'a'], 8) {
        let expected = std::path::Path::new(&path).parent();
        assert_eq!(
            parent_path(PathStyle::Unix, &path).as_deref(),
            expected.map(|dir| dir.to_str().expect("utf-8")),
            "{path}"
        );
    }
}

#[test]
fn windows_paths_are_joined_by_their_prefix() {
    let joined = |base: &str, part: &str| join_path(PathStyle::Windows, base, part);
    assert_eq!(joined("C:\\r", "C:\\s"), "C:\\s");
    assert_eq!(joined("C:\\r", "s"), "C:\\r\\s");
    assert_eq!(joined("C:\\r\\", "s"), "C:\\r\\s");
    assert_eq!(joined("C:/r/", "s/t"), "C:/r/s/t");
    assert_eq!(joined("C:\\r", "\\s"), "C:\\s");
    assert_eq!(joined("C:\\r", "/s"), "C:/s");
    assert_eq!(joined("C:\\r", "D:s"), "D:s");
    assert_eq!(joined("C:", "s"), "C:s");
    assert_eq!(joined("r", "s"), "r\\s");
    assert_eq!(joined("", "s"), "s");
    assert_eq!(joined("r", "\\s"), "\\s");
    assert_eq!(joined("C:\\r", ""), "C:\\r\\");
    assert_eq!(joined("C:\\r", "\\\\srv\\x\\y"), "\\\\srv\\x\\y");
    assert_eq!(joined("\\\\srv\\x\\y", "\\z"), "\\\\srv\\x\\z");
    assert_eq!(joined("\\\\srv\\x", "z"), "\\\\srv\\x\\z");
    assert_eq!(joined("C:\\r", "\\\\.\\COM1"), "\\\\.\\COM1");
    assert_eq!(joined("\\\\.\\COM1\\a", "\\b"), "\\\\.\\COM1\\b");
}

#[test]
fn verbatim_paths_are_joined_name_by_name() {
    let joined = |base: &str, part: &str| join_path(PathStyle::Windows, base, part);
    assert_eq!(joined("\\\\?\\C:\\r", "s/./t"), "\\\\?\\C:\\r\\s\\t");
    assert_eq!(joined("\\\\?\\C:\\r\\s", "..\\t"), "\\\\?\\C:\\r\\t");
    assert_eq!(joined("\\\\?\\C:\\r", "\\s"), "\\\\?\\C:\\s");
    assert_eq!(joined("\\\\?\\C:\\", "..\\..\\s"), "\\\\?\\C:\\s");
    assert_eq!(joined("\\\\?\\UNC\\srv\\x", "s"), "\\\\?\\UNC\\srv\\x\\s");
    assert_eq!(joined("\\\\?\\pictures\\", "s"), "\\\\?\\pictures\\s");
    assert_eq!(joined("\\\\?\\C:\\r", "D:\\s"), "D:\\s");
}

#[test]
fn windows_paths_have_directories() {
    let parent = |path: &str| parent_path(PathStyle::Windows, path);
    assert_eq!(parent("C:\\r\\s").as_deref(), Some("C:\\r"));
    assert_eq!(parent("C:\\r/s/").as_deref(), Some("C:\\r"));
    assert_eq!(parent("C:\\r").as_deref(), Some("C:\\"));
    assert_eq!(parent("C:r").as_deref(), Some("C:"));
    assert_eq!(parent("C:."), Some("C:".to_string()));
    assert_eq!(parent("C:\\"), None);
    assert_eq!(parent("C:"), None);
    assert_eq!(parent("r").as_deref(), Some(""));
    assert_eq!(parent(""), None);
    assert_eq!(parent("\\\\srv\\x\\y").as_deref(), Some("\\\\srv\\x\\"));
    assert_eq!(parent("\\\\srv\\x"), None);
    assert_eq!(parent("\\\\?\\C:\\r\\s").as_deref(), Some("\\\\?\\C:\\r"));
}

#[test]
fn loading_fails_where_a_manifest_does() {
    let load = |manifests| Catalog::load_from_tasks_dir("/t", manifests);
    let read = |id: &str, needs: &[&str]| Ok(simple(id, needs));
    assert!(load(vec![read("b", &["a"]), read("a", &[])]).is_ok());
    assert_eq!(load(Vec::new()).expect_err("none"), CatalogError::NoManifests("/t".to_string()));
    assert_eq!(
        load(vec![read("a", &[]), Err("torn".to_string())]).expect_err("torn"),
        CatalogError::Manifest("torn".to_string())
    );
    assert!(load(vec![read("a", &[]), read("a", &[])]).is_err());
    assert!(load(vec![read("a", &["x"])]).is_err());
}

//! Task manifests, the catalog that holds them, and execution plans.

use crate::paths;
use crate::paths::{join_path, PathStyle};
use crate::text;
use crate::text::{clone_optional, clone_texts, concat2, text_eq, text_less, Text};
use crate::variables::TaskEnv;
use vstd::prelude::*;

verus! {

/// What becomes of a task whose requirements are missing.
#[derive(Debug, Clone, Copy, PartialEq, Eq, Structural)]
pub enum MissingRequirementPolicy {
    Warn,
    Fail,
}

impl Default for MissingRequirementPolicy {
    fn default() -> (res: Self)
        ensures
            res == MissingRequirementPolicy::Warn,
    {
        MissingRequirementPolicy::Warn
    }
}

/// What a task needs before it can run.
#[derive(Debug, PartialEq, Eq)]
pub struct TaskPreflight {
    pub requires_commands: Vec<String>,
    pub requires_paths: Vec<String>,
    pub on_missing: MissingRequirementPolicy,
}

/// How a task is run.
#[derive(Debug, PartialEq, Eq)]
pub enum TaskRunner {
    Script { path: String, shell: String, args: Vec<String> },
    Command { program: String, args: Vec<String> },
}

/// One task, as its manifest declares it.
#[derive(Debug, PartialEq, Eq)]
pub struct TaskDefinition {
    pub id: String,
    pub label: String,
    pub description: String,
    pub category: String,
    pub tags: Vec<String>,
    pub notes: Vec<String>,
    pub default_selected: bool,
    pub dangerous: bool,
    pub danger_message: Option<String>,
    pub dependencies: Vec<String>,
    /// Environment variables, by ascending name.
    pub env: TaskEnv,
    pub preflight: TaskPreflight,
    pub runner: TaskRunner,
}

/// The tasks to run, in order.
#[derive(Debug, PartialEq, Eq)]
pub struct ExecutionPlan {
    pub tasks: Vec<TaskDefinition>,
}

/// The content of a [`TaskPreflight`].
#[verifier::ext_equal]
pub struct PreflightModel {
    pub requires_commands: Seq<Text>,
    pub requires_paths: Seq<Text>,
    pub on_missing: MissingRequirementPolicy,
}

/// The content of a [`TaskRunner`].
#[verifier::ext_equal]
pub enum RunnerModel {
    Script { path: Text, shell: Text, args: Seq<Text> },
    Command { program: Text, args: Seq<Text> },
}

/// The content of a [`TaskDefinition`].
#[verifier::ext_equal]
pub struct TaskModel {
    pub id: Text,
    pub label: Text,
    pub description: Text,
    pub category: Text,
    pub tags: Seq<Text>,
    pub notes: Seq<Text>,
    pub default_selected: bool,
    pub dangerous: bool,
    pub danger_message: Option<Text>,
    pub dependencies: Seq<Text>,
    pub env: Seq<(Text, Text)>,
    pub preflight: PreflightModel,
    pub runner: RunnerModel,
}

impl View for TaskPreflight {
    type V = PreflightModel;

    open spec fn view(&self) -> PreflightModel {
        PreflightModel {
            requires_commands: self.requires_commands.deep_view(),
            requires_paths: self.requires_paths.deep_view(),
            on_missing: self.on_missing,
        }
    }
}

impl View for TaskRunner {
    type V = RunnerModel;

    open spec fn view(&self) -> RunnerModel {
        match self {
            TaskRunner::Script { path, shell, args } => RunnerModel::Script {
                path: path@,
                shell: shell@,
                args: args.deep_view(),
            },
            TaskRunner::Command { program, args } => RunnerModel::Command {
                program: program@,
                args: args.deep_view(),
            },
        }
    }
}

impl View for TaskDefinition {
    type V = TaskModel;

    open spec fn view(&self) -> TaskModel {
        TaskModel {
            id: self.id@,
            label: self.label@,
            description: self.description@,
            category: self.category@,
            tags: self.tags.deep_view(),
            notes: self.notes.deep_view(),
            default_selected: self.default_selected,
            dangerous: self.dangerous,
            danger_message: self.danger_message.deep_view(),
            dependencies: self.dependencies.deep_view(),
            env: self.env@,
            preflight: self.preflight@,
            runner: self.runner@,
        }
    }
}

impl DeepView for TaskDefinition {
    type V = TaskModel;

    open spec fn deep_view(&self) -> TaskModel {
        self.view()
    }
}

impl View for ExecutionPlan {
    type V = Seq<TaskModel>;

    open spec fn view(&self) -> Seq<TaskModel> {
        self.tasks.deep_view()
    }
}

impl DeepView for ExecutionPlan {
    type V = Seq<TaskModel>;

    open spec fn deep_view(&self) -> Seq<TaskModel> {
        self.view()
    }
}

impl Default for TaskPreflight {
    fn default() -> (res: Self)
        ensures
            res@ == (PreflightModel {
                requires_commands: Seq::empty(),
                requires_paths: Seq::empty(),
                on_missing: MissingRequirementPolicy::Warn,
            }),
    {
        TaskPreflight {
            requires_commands: Vec::new(),
            requires_paths: Vec::new(),
            on_missing: MissingRequirementPolicy::default(),
        }
    }
}

impl Clone for TaskPreflight {
    fn clone(&self) -> (res: Self)
        ensures
            res@ == self@,
    {
        TaskPreflight {
            requires_commands: clone_texts(&self.requires_commands),
            requires_paths: clone_texts(&self.requires_paths),
            on_missing: self.on_missing,
        }
    }
}

impl Clone for TaskRunner {
    fn clone(&self) -> (res: Self)
        ensures
            res@ == self@,
    {
        match self {
            TaskRunner::Script { path, shell, args } => TaskRunner::Script {
                path: path.clone(),
                shell: shell.clone(),
                args: clone_texts(args),
            },
            TaskRunner::Command { program, args } => TaskRunner::Command {
                program: program.clone(),
                args: clone_texts(args),
            },
        }
    }
}

impl Clone for TaskDefinition {
    fn clone(&self) -> (res: Self)
        ensures
            res@ == self@,
    {
        TaskDefinition {
            id: self.id.clone(),
            label: self.label.clone(),
            description: self.description.clone(),
            category: self.category.clone(),
            tags: clone_texts(&self.tags),
            notes: clone_texts(&self.notes),
            default_selected: self.default_selected,
            dangerous: self.dangerous,
            danger_message: clone_optional(&self.danger_message),
            dependencies: clone_texts(&self.dependencies),
            env: self.env.clone(),
            preflight: self.preflight.clone(),
            runner: self.runner.clone(),
        }
    }
}

/// A copy of a task list.
pub fn clone_tasks(tasks: &Vec<TaskDefinition>) -> (res: Vec<TaskDefinition>)
    ensures
        res.deep_view() == tasks.deep_view(),
{
    let mut res: Vec<TaskDefinition> = Vec::new();
    let mut i: usize = 0;
    while i < tasks.len()
        invariant
            i <= tasks.len(),
            res.deep_view() =~= tasks.deep_view().take(i as int),
        decreases tasks.len() - i,
    {
        let ghost before = res.deep_view();
        let task = tasks[i].clone();
        res.push(task);
        assert(res.deep_view() =~= before.push(tasks.deep_view()[i as int]));
        i += 1;
    }
    assert(tasks.deep_view().take(tasks.len() as int) =~= tasks.deep_view());
    res
}

impl Clone for ExecutionPlan {
    fn clone(&self) -> (res: Self)
        ensures
            res@ == self@,
    {
        ExecutionPlan { tasks: clone_tasks(&self.tasks) }
    }
}

/// Some task has this id.
pub open spec fn has_id(tasks: Seq<TaskModel>, id: Text) -> bool {
    exists|i: int| 0 <= i < tasks.len() && #[trigger] tasks[i].id == id
}

/// The position of the task with this id.
pub open spec fn index_of(tasks: Seq<TaskModel>, id: Text) -> int {
    choose|i: int| 0 <= i < tasks.len() && #[trigger] tasks[i].id == id
}

/// Ids ascend strictly, so no two tasks share one.
pub open spec fn ids_ascend(tasks: Seq<TaskModel>) -> bool {
    forall|i: int, j: int|
        0 <= i < j < tasks.len() ==> text::text_lt(#[trigger] tasks[i].id, #[trigger] tasks[j].id)
}

/// Every dependency of every task is the id of a task.
pub open spec fn dependencies_known(tasks: Seq<TaskModel>) -> bool {
    forall|i: int, k: int|
        0 <= i < tasks.len() && 0 <= k < tasks[i].dependencies.len() ==> has_id(
            tasks,
            #[trigger] tasks[i].dependencies[k],
        )
}

/// What holds of the tasks of every catalog.
pub open spec fn catalog_wf(tasks: Seq<TaskModel>) -> bool {
    ids_ascend(tasks) && dependencies_known(tasks)
}

pub proof fn lemma_ids_distinct(tasks: Seq<TaskModel>, i: int, j: int)
    requires
        ids_ascend(tasks),
        0 <= i < tasks.len(),
        0 <= j < tasks.len(),
        tasks[i].id == tasks[j].id,
    ensures
        i == j,
{
    text::lemma_text_lt_irreflexive(tasks[i].id);
}

pub proof fn lemma_index_of(tasks: Seq<TaskModel>, i: int)
    requires
        ids_ascend(tasks),
        0 <= i < tasks.len(),
    ensures
        index_of(tasks, tasks[i].id) == i,
{
    let found = index_of(tasks, tasks[i].id);
    assert(tasks[i].id == tasks[i].id);
    lemma_ids_distinct(tasks, i, found);
}

/// Why a catalog could not be built or a plan not be made.
#[derive(Debug, PartialEq, Eq)]
pub enum CatalogError {
    /// A manifest could not be read or parsed; the text says which and why.
    Manifest(String),
    DuplicateTask(String),
    NoManifests(String),
    UnknownDependency { task: String, dependency: String },
    UnknownTask(String),
    DependencyCycle(String),
}

/// The content of a [`CatalogError`].
#[verifier::ext_equal]
pub enum CatalogErrorModel {
    Manifest(Text),
    DuplicateTask(Text),
    NoManifests(Text),
    UnknownDependency { task: Text, dependency: Text },
    UnknownTask(Text),
    DependencyCycle(Text),
}

impl View for CatalogError {
    type V = CatalogErrorModel;

    open spec fn view(&self) -> CatalogErrorModel {
        match self {
            CatalogError::Manifest(reason) => CatalogErrorModel::Manifest(reason@),
            CatalogError::DuplicateTask(id) => CatalogErrorModel::DuplicateTask(id@),
            CatalogError::NoManifests(dir) => CatalogErrorModel::NoManifests(dir@),
            CatalogError::UnknownDependency { task, dependency } =>
                CatalogErrorModel::UnknownDependency { task: task@, dependency: dependency@ },
            CatalogError::UnknownTask(id) => CatalogErrorModel::UnknownTask(id@),
            CatalogError::DependencyCycle(id) => CatalogErrorModel::DependencyCycle(id@),
        }
    }
}

impl CatalogErrorModel {
    /// The error as it is shown.
    pub open spec fn message(self) -> Text {
        match self {
            CatalogErrorModel::Manifest(reason) => reason,
            CatalogErrorModel::DuplicateTask(id) => "duplicate task id "@ + id,
            CatalogErrorModel::NoManifests(dir) => "no task manifests found in "@ + dir,
            CatalogErrorModel::UnknownDependency { task, dependency } => "task "@ + task
                + " references unknown dependency "@ + dependency,
            CatalogErrorModel::UnknownTask(id) => "unknown task "@ + id,
            CatalogErrorModel::DependencyCycle(id) => "dependency cycle detected at task "@ + id,
        }
    }
}

impl CatalogError {
    /// The error as it is shown.
    pub fn message(&self) -> (res: String)
        ensures
            res@ == self@.message(),
    {
        match self {
            CatalogError::Manifest(reason) => reason.clone(),
            CatalogError::DuplicateTask(id) => concat2("duplicate task id ", id.as_str()),
            CatalogError::NoManifests(dir) => concat2("no task manifests found in ", dir.as_str()),
            CatalogError::UnknownDependency { task, dependency } => {
                let mut res = concat2("task ", task.as_str());
                res.append(" references unknown dependency ");
                res.append(dependency.as_str());
                res
            },
            CatalogError::UnknownTask(id) => concat2("unknown task ", id.as_str()),
            CatalogError::DependencyCycle(id) => concat2(
                "dependency cycle detected at task ",
                id.as_str(),
            ),
        }
    }
}

/// The position of the task with this id, if there is one.
pub fn find_task(tasks: &Vec<TaskDefinition>, id: &str) -> (res: Option<usize>)
    ensures
        match res {
            Some(i) => i < tasks.len() && tasks.deep_view()[i as int].id == id@,
            None => !has_id(tasks.deep_view(), id@),
        },
{
    let mut i: usize = 0;
    while i < tasks.len()
        invariant
            i <= tasks.len(),
            forall|j: int| 0 <= j < i ==> (#[trigger] tasks.deep_view()[j]).id != id@,
        decreases tasks.len() - i,
    {
        if text_eq(tasks[i].id.as_str(), id) {
            return Some(i);
        }
        i += 1;
    }
    None
}

/// How many leading tasks have smaller ids than `id`.
pub open spec fn place_of(tasks: Seq<TaskModel>, id: Text) -> int
    decreases tasks.len(),
{
    if tasks.len() == 0 {
        0
    } else if text::text_lt(tasks[0].id, id) {
        1 + place_of(tasks.drop_first(), id)
    } else {
        0
    }
}

/// `tasks` with `task` put in before the first task with a greater or equal id.
pub open spec fn filed(tasks: Seq<TaskModel>, task: TaskModel) -> Seq<TaskModel> {
    tasks.insert(place_of(tasks, task.id), task)
}

proof fn lemma_place_of(tasks: Seq<TaskModel>, id: Text)
    ensures
        0 <= place_of(tasks, id) <= tasks.len(),
        forall|i: int|
            0 <= i < place_of(tasks, id) ==> text::text_lt(#[trigger] tasks[i].id, id),
        place_of(tasks, id) < tasks.len() ==> !text::text_lt(tasks[place_of(tasks, id)].id, id),
    decreases tasks.len(),
{
    if tasks.len() > 0 && text::text_lt(tasks[0].id, id) {
        let rest = tasks.drop_first();
        lemma_place_of(rest, id);
        assert forall|i: int| 0 <= i < place_of(tasks, id) implies text::text_lt(
            #[trigger] tasks[i].id,
            id,
        ) by {
            if i > 0 {
                assert(tasks[i] == rest[i - 1]);
            }
        }
        if place_of(tasks, id) < tasks.len() {
            assert(tasks[place_of(tasks, id)] == rest[place_of(rest, id)]);
        }
    }
}

/// Filing a task with a new id keeps ids ascending.
proof fn lemma_filed_ascends(tasks: Seq<TaskModel>, task: TaskModel)
    requires
        ids_ascend(tasks),
        !has_id(tasks, task.id),
    ensures
        ids_ascend(filed(tasks, task)),
{
    let place = place_of(tasks, task.id);
    let all = filed(tasks, task);
    lemma_place_of(tasks, task.id);
    assert forall|i: int, j: int| 0 <= i < j < all.len() implies text::text_lt(
        #[trigger] all[i].id,
        #[trigger] all[j].id,
    ) by {
        if i == place {
            assert(all[j] == tasks[j - 1]);
            text::lemma_text_lt_total(tasks[place].id, task.id);
            assert(tasks[place].id != task.id);
            if j - 1 > place {
                text::lemma_text_lt_transitive(task.id, tasks[place].id, tasks[j - 1].id);
            }
        } else if j == place {
            assert(all[i] == tasks[i]);
        } else {
            assert(all[i] == tasks[if i < place {
                i
            } else {
                i - 1
            }]);
            assert(all[j] == tasks[if j < place {
                j
            } else {
                j - 1
            }]);
        }
    }
}

/// Where `id` belongs among ascending ids.
fn find_place(tasks: &Vec<TaskDefinition>, id: &str) -> (res: usize)
    ensures
        res == place_of(tasks.deep_view(), id@),
        res <= tasks.len(),
{
    let mut i: usize = 0;
    let ghost all = tasks.deep_view();
    assert(all.skip(0) =~= all);
    while i < tasks.len() && text_less(tasks[i].id.as_str(), id)
        invariant
            i <= tasks.len(),
            all == tasks.deep_view(),
            place_of(all, id@) == i + place_of(all.skip(i as int), id@),
        decreases tasks.len() - i,
    {
        assert(all.skip(i as int).drop_first() =~= all.skip(i + 1));
        i += 1;
    }
    i
}

/// The outcome of reading one manifest: the task, or why there is none.
pub open spec fn manifest_view(manifest: Result<TaskDefinition, String>) -> Result<
    TaskModel,
    Text,
> {
    match manifest {
        Ok(task) => Ok(task@),
        Err(reason) => Err(reason@),
    }
}

/// The outcomes of reading several manifests.
pub open spec fn manifests_view(manifests: Seq<Result<TaskDefinition, String>>) -> Seq<
    Result<TaskModel, Text>,
> {
    manifests.map_values(|manifest: Result<TaskDefinition, String>| manifest_view(manifest))
}

/// The tasks of the manifests with ids ascending, or the first failure: a
/// manifest that could not be read, or one whose id occurred before.
pub open spec fn gathered(manifests: Seq<Result<TaskModel, Text>>) -> Result<
    Seq<TaskModel>,
    CatalogErrorModel,
>
    decreases manifests.len(),
{
    if manifests.len() == 0 {
        Ok(Seq::empty())
    } else {
        match gathered(manifests.drop_last()) {
            Err(error) => Err(error),
            Ok(tasks) => match manifests.last() {
                Err(reason) => Err(CatalogErrorModel::Manifest(reason)),
                Ok(task) => if has_id(tasks, task.id) {
                    Err(CatalogErrorModel::DuplicateTask(task.id))
                } else {
                    Ok(filed(tasks, task))
                },
            },
        }
    }
}

/// The first of `dependencies` that is not the id of a task.
pub open spec fn first_missing(tasks: Seq<TaskModel>, dependencies: Seq<Text>) -> Option<Text>
    decreases dependencies.len(),
{
    if dependencies.len() == 0 {
        None
    } else {
        match first_missing(tasks, dependencies.drop_last()) {
            Some(id) => Some(id),
            None => if has_id(tasks, dependencies.last()) {
                None
            } else {
                Some(dependencies.last())
            },
        }
    }
}

/// The first of the leading `count` tasks with an unknown dependency, and that
/// dependency.
pub open spec fn first_unresolved(tasks: Seq<TaskModel>, count: nat) -> Option<(Text, Text)>
    decreases count,
{
    if count == 0 {
        None
    } else {
        match first_unresolved(tasks, (count - 1) as nat) {
            Some(found) => Some(found),
            None => match first_missing(tasks, tasks[count - 1].dependencies) {
                Some(dependency) => Some((tasks[count - 1].id, dependency)),
                None => None,
            },
        }
    }
}

/// The tasks, if all their dependencies are known.
pub open spec fn resolved(tasks: Seq<TaskModel>) -> Result<Seq<TaskModel>, CatalogErrorModel> {
    match first_unresolved(tasks, tasks.len()) {
        Some((task, dependency)) => Err(
            CatalogErrorModel::UnknownDependency { task, dependency },
        ),
        None => Ok(tasks),
    }
}

/// The definitions as manifests that were all read.
pub open spec fn all_read(tasks: Seq<TaskModel>) -> Seq<Result<TaskModel, Text>> {
    tasks.map_values(|task: TaskModel| Ok::<TaskModel, Text>(task))
}

/// The tasks of a catalog built from task definitions.
pub open spec fn definitions_outcome(tasks: Seq<TaskModel>) -> Result<
    Seq<TaskModel>,
    CatalogErrorModel,
> {
    match gathered(all_read(tasks)) {
        Err(error) => Err(error),
        Ok(all) => resolved(all),
    }
}

/// The tasks of a catalog loaded from the manifests of a directory.
pub open spec fn load_outcome(dir: Text, manifests: Seq<Result<TaskModel, Text>>) -> Result<
    Seq<TaskModel>,
    CatalogErrorModel,
> {
    match gathered(manifests) {
        Err(error) => Err(error),
        Ok(all) => if all.len() == 0 {
            Err(CatalogErrorModel::NoManifests(dir))
        } else {
            resolved(all)
        },
    }
}

pub proof fn lemma_first_missing(tasks: Seq<TaskModel>, dependencies: Seq<Text>)
    ensures
        first_missing(tasks, dependencies) is None <==> forall|k: int|
            0 <= k < dependencies.len() ==> has_id(tasks, #[trigger] dependencies[k]),
        first_missing(tasks, dependencies) matches Some(id) ==> dependencies.contains(id)
            && !has_id(tasks, id),
    decreases dependencies.len(),
{
    if dependencies.len() > 0 {
        let init = dependencies.drop_last();
        lemma_first_missing(tasks, init);
        match first_missing(tasks, init) {
            Some(id) => {
                let k = choose|k: int| 0 <= k < init.len() && init[k] == id;
                assert(dependencies[k] == id);
            },
            None => {
                assert forall|k: int| 0 <= k < dependencies.len() - 1 implies has_id(
                    tasks,
                    #[trigger] dependencies[k],
                ) by {
                    assert(init[k] == dependencies[k]);
                }
                assert(dependencies[dependencies.len() - 1] == dependencies.last());
            },
        }
    }
}

pub proof fn lemma_first_unresolved(tasks: Seq<TaskModel>, count: nat)
    requires
        count <= tasks.len(),
    ensures
        first_unresolved(tasks, count) is None <==> forall|i: int, k: int|
            0 <= i < count && 0 <= k < tasks[i].dependencies.len() ==> has_id(
                tasks,
                #[trigger] tasks[i].dependencies[k],
            ),
    decreases count,
{
    if count > 0 {
        lemma_first_unresolved(tasks, (count - 1) as nat);
        lemma_first_missing(tasks, tasks[count - 1].dependencies);
        if first_unresolved(tasks, count) is None {
            assert forall|i: int, k: int|
                0 <= i < count && 0 <= k < tasks[i].dependencies.len() implies has_id(
                tasks,
                #[trigger] tasks[i].dependencies[k],
            ) by {
                if i == count - 1 {
                    assert(has_id(tasks, tasks[count - 1].dependencies[k]));
                }
            }
        } else if first_unresolved(tasks, (count - 1) as nat) is None {
            let dependencies = tasks[count - 1].dependencies;
            let id = first_missing(tasks, dependencies)->0;
            let k = choose|k: int| 0 <= k < dependencies.len() && dependencies[k] == id;
            assert(!has_id(tasks, tasks[count - 1].dependencies[k]));
        }
    }
}

pub proof fn lemma_gathered_stops(manifests: Seq<Result<TaskModel, Text>>, count: int)
    requires
        0 <= count <= manifests.len(),
        gathered(manifests.take(count)) is Err,
    ensures
        gathered(manifests) == gathered(manifests.take(count)),
    decreases manifests.len() - count,
{
    if count == manifests.len() {
        assert(manifests.take(count) =~= manifests);
    } else {
        assert(manifests.take(count + 1).drop_last() =~= manifests.take(count));
        lemma_gathered_stops(manifests, count + 1);
    }
}

pub proof fn lemma_first_missing_stops(
    tasks: Seq<TaskModel>,
    dependencies: Seq<Text>,
    count: int,
)
    requires
        0 <= count <= dependencies.len(),
        first_missing(tasks, dependencies.take(count)) is Some,
    ensures
        first_missing(tasks, dependencies) == first_missing(tasks, dependencies.take(count)),
    decreases dependencies.len() - count,
{
    if count == dependencies.len() {
        assert(dependencies.take(count) =~= dependencies);
    } else {
        assert(dependencies.take(count + 1).drop_last() =~= dependencies.take(count));
        lemma_first_missing_stops(tasks, dependencies, count + 1);
    }
}

pub proof fn lemma_first_unresolved_stops(tasks: Seq<TaskModel>, count: nat, total: nat)
    requires
        count <= total,
        first_unresolved(tasks, count) is Some,
    ensures
        first_unresolved(tasks, total) == first_unresolved(tasks, count),
    decreases total - count,
{
    if count < total {
        lemma_first_unresolved_stops(tasks, count + 1, total);
    }
}

/// The first of `dependencies` that is not the id of a task.
pub fn find_missing(tasks: &Vec<TaskDefinition>, dependencies: &Vec<String>) -> (res: Option<String>)
    ensures
        res.deep_view() == first_missing(tasks.deep_view(), dependencies.deep_view()),
{
    let mut k: usize = 0;
    let ghost all = dependencies.deep_view();
    while k < dependencies.len()
        invariant
            k <= dependencies.len(),
            all == dependencies.deep_view(),
            first_missing(tasks.deep_view(), all.take(k as int)) is None,
        decreases dependencies.len() - k,
    {
        proof {
            assert(all.take(k + 1).drop_last() =~= all.take(k as int));
            assert(all.take(k + 1).last() == dependencies@[k as int]@);
        }
        if find_task(tasks, dependencies[k].as_str()).is_none() {
            proof {
                lemma_first_missing_stops(tasks.deep_view(), all, k + 1);
            }
            return Some(dependencies[k].clone());
        }
        k += 1;
    }
    assert(all.take(dependencies.len() as int) =~= all);
    None
}

/// The tasks of an update system, by id.
#[derive(Debug)]
pub struct Catalog {
    tasks: Vec<TaskDefinition>,
}

impl View for Catalog {
    type V = Seq<TaskModel>;

    closed spec fn view(&self) -> Seq<TaskModel> {
        self.tasks.deep_view()
    }
}

/// A built catalog, or why it could not be built, as content.
pub open spec fn catalog_result(res: Result<Catalog, CatalogError>) -> Result<
    Seq<TaskModel>,
    CatalogErrorModel,
> {
    match res {
        Ok(catalog) => Ok(catalog@),
        Err(error) => Err(error@),
    }
}

/// Reads off the gathered tasks, or the failure.
pub open spec fn gather_result(res: Result<Vec<TaskDefinition>, CatalogError>) -> Result<
    Seq<TaskModel>,
    CatalogErrorModel,
> {
    match res {
        Ok(tasks) => Ok(tasks.deep_view()),
        Err(error) => Err(error@),
    }
}

fn gather(manifests: Vec<Result<TaskDefinition, String>>) -> (res: Result<
    Vec<TaskDefinition>,
    CatalogError,
>)
    ensures
        gather_result(res) == gathered(manifests_view(manifests@)),
        res matches Ok(tasks) ==> ids_ascend(tasks.deep_view()),
{
    let mut tasks: Vec<TaskDefinition> = Vec::new();
    let ghost all = manifests_view(manifests@);
    let ghost mut count: int = 0;
    assert(all.take(0) =~= Seq::empty());
    assert(tasks.deep_view() =~= Seq::empty());
    for manifest in iter: manifests
        invariant
            all == manifests_view(manifests@),
            count == iter.index(),
            iter.seq() == manifests@,
            gathered(all.take(iter.index() as int)) == Ok::<Seq<TaskModel>, CatalogErrorModel>(
                tasks.deep_view(),
            ),
            ids_ascend(tasks.deep_view()),
    {
        proof {
            count = count + 1;
            assert(all.take(count).drop_last() =~= all.take(count - 1));
            assert(all.take(count).last() == manifest_view(manifest));
        }
        match manifest {
            Err(reason) => {
                proof {
                    lemma_gathered_stops(all, count);
                }
                return Err(CatalogError::Manifest(reason));
            },
            Ok(task) => {
                if find_task(&tasks, task.id.as_str()).is_some() {
                    proof {
                        lemma_gathered_stops(all, count);
                    }
                    return Err(CatalogError::DuplicateTask(task.id));
                }
                let place: usize = find_place(&tasks, task.id.as_str());
                let ghost before = tasks.deep_view();
                proof {
                    lemma_filed_ascends(before, task@);
                }
                tasks.insert(place, task);
                assert(tasks.deep_view() =~= filed(before, task@));
            },
        }
    }
    assert(all.take(all.len() as int) =~= all);
    Ok(tasks)
}

impl Clone for Catalog {
    fn clone(&self) -> (res: Self)
        ensures
            res@ == self@,
    {
        proof {
            use_type_invariant(self);
        }
        Catalog { tasks: clone_tasks(&self.tasks) }
    }
}

impl Catalog {
    #[verifier::type_invariant]
    spec fn inv(self) -> bool {
        catalog_wf(self.tasks.deep_view())
    }

    /// A catalog of tasks with ascending ids, if all dependencies are known.
    fn resolve(tasks: Vec<TaskDefinition>) -> (res: Result<Catalog, CatalogError>)
        requires
            ids_ascend(tasks.deep_view()),
        ensures
            catalog_result(res) == resolved(tasks.deep_view()),
            res matches Ok(catalog) ==> catalog_wf(catalog@),
    {
        let ghost all = tasks.deep_view();
        let mut i: usize = 0;
        while i < tasks.len()
            invariant
                i <= tasks.len(),
                all == tasks.deep_view(),
                first_unresolved(all, i as nat) is None,
            decreases tasks.len() - i,
        {
            match find_missing(&tasks, &tasks[i].dependencies) {
                Some(dependency) => {
                    proof {
                        lemma_first_unresolved_stops(all, (i + 1) as nat, all.len());
                    }
                    let task = tasks[i].id.clone();
                    return Err(CatalogError::UnknownDependency { task, dependency });
                },
                None => {},
            }
            i += 1;
        }
        proof {
            lemma_first_unresolved(all, all.len());
        }
        Ok(Catalog { tasks })
    }

    /// A catalog of the given tasks. It fails at the first task whose id
    /// occurred before; then at the first unknown dependency, tasks taken by
    /// ascending id.
    pub fn from_task_definitions(tasks: Vec<TaskDefinition>) -> (res: Result<
        Catalog,
        CatalogError,
    >)
        ensures
            catalog_result(res) == definitions_outcome(tasks.deep_view()),
            res matches Ok(catalog) ==> catalog_wf(catalog@),
    {
        let ghost given = tasks.deep_view();
        let mut manifests: Vec<Result<TaskDefinition, String>> = Vec::new();
        for task in iter: tasks
            invariant
                iter.seq() == tasks@,
                manifests@.len() == iter.index(),
                forall|k: int|
                    0 <= k < iter.index() ==> manifest_view(#[trigger] manifests@[k])
                        == Ok::<TaskModel, Text>(tasks@[k]@),
        {
            manifests.push(Ok(task));
        }
        assert(manifests_view(manifests@) =~= all_read(given));
        match gather(manifests) {
            Ok(all) => Catalog::resolve(all),
            Err(error) => Err(error),
        }
    }

    /// A catalog of the manifests that were read in `tasks_dir`, in the order
    /// in which they were read. There must be at least one.
    pub fn load_from_tasks_dir(
        tasks_dir: &str,
        manifests: Vec<Result<TaskDefinition, String>>,
    ) -> (res: Result<Catalog, CatalogError>)
        ensures
            catalog_result(res) == load_outcome(tasks_dir@, manifests_view(manifests@)),
            res matches Ok(catalog) ==> catalog_wf(catalog@) && catalog@.len() > 0,
    {
        match gather(manifests) {
            Ok(all) => {
                if all.len() == 0 {
                    return Err(CatalogError::NoManifests(tasks_dir.to_owned()));
                }
                Catalog::resolve(all)
            },
            Err(error) => Err(error),
        }
    }

    /// A catalog of the manifests that were read in the tasks directory of
    /// `root`.
    pub fn load_from_root(
        style: PathStyle,
        root: &str,
        manifests: Vec<Result<TaskDefinition, String>>,
    ) -> (res: Result<Catalog, CatalogError>)
        ensures
            catalog_result(res) == load_outcome(
                paths::joined_path(style, root@, "tasks"@),
                manifests_view(manifests@),
            ),
            res matches Ok(catalog) ==> catalog_wf(catalog@) && catalog@.len() > 0,
    {
        let dir = join_path(style, root, "tasks");
        Catalog::load_from_tasks_dir(dir.as_str(), manifests)
    }

    /// The tasks, by ascending id.
    pub fn tasks(&self) -> (res: &Vec<TaskDefinition>)
        ensures
            res.deep_view() == self@,
            catalog_wf(self@),
    {
        proof {
            use_type_invariant(self);
        }
        &self.tasks
    }
}

/// A file in the tasks directory is a manifest when its extension is `toml`.
pub fn is_manifest_extension(extension: Option<&str>) -> (res: bool)
    ensures
        res == (extension matches Some(name) && name@ == "toml"@),
{
    match extension {
        Some(name) => text_eq(name, "toml"),
        None => false,
    }
}

/// Whether a task is selected that does not say.
pub fn default_true() -> (res: bool)
    ensures
        res,
{
    true
}

/// The category of a task whose manifest names none.
pub fn default_category() -> (res: String)
    ensures
        res@ == "general"@,
{
    "general".to_owned()
}

/// The shell of a script task that does not name one.
pub fn default_shell() -> (res: String)
    ensures
        res@ == "zsh"@,
{
    "zsh".to_owned()
}

/// Two of the tasks share an id.
pub open spec fn ids_repeat(tasks: Seq<TaskModel>) -> bool {
    exists|i: int, j: int|
        0 <= i < j < tasks.len() && #[trigger] tasks[i].id == #[trigger] tasks[j].id
}

pub proof fn lemma_gathered_definitions(tasks: Seq<TaskModel>)
    ensures
        match gathered(all_read(tasks)) {
            Ok(all) => {
                &&& ids_ascend(all)
                &&& all.to_multiset() == tasks.to_multiset()
                &&& forall|id: Text| #[trigger] has_id(all, id) <==> has_id(tasks, id)
                &&& !ids_repeat(tasks)
            },
            Err(error) => ids_repeat(tasks) && error is DuplicateTask,
        },
    decreases tasks.len(),
{
    broadcast use vstd::seq_lib::group_to_multiset_ensures;

    if tasks.len() == 0 {
        assert(all_read(tasks) =~= Seq::empty());
        assert(tasks =~= Seq::<TaskModel>::empty());
    } else {
        let init = tasks.drop_last();
        let last = tasks.last();
        lemma_gathered_definitions(init);
        assert(all_read(tasks).drop_last() =~= all_read(init));
        assert(all_read(tasks).last() == Ok::<TaskModel, Text>(last));
        assert(tasks =~= init.push(last));
        match gathered(all_read(init)) {
            Err(_) => {
                let (i, j) = choose|i: int, j: int|
                    0 <= i < j < init.len() && #[trigger] init[i].id == #[trigger] init[j].id;
                assert(tasks[i].id == tasks[j].id);
            },
            Ok(before) => {
                if has_id(before, last.id) {
                    assert(has_id(init, last.id));
                    let i = choose|i: int| 0 <= i < init.len() && #[trigger] init[i].id == last.id;
                    assert(tasks[i].id == tasks[tasks.len() - 1].id);
                } else {
                    assert(!has_id(init, last.id));
                    let place = place_of(before, last.id);
                    lemma_place_of(before, last.id);
                    lemma_filed_ascends(before, last);
                    let all = filed(before, last);
                    assert(all.to_multiset() =~= before.to_multiset().insert(last)) by {
                        vstd::seq_lib::to_multiset_insert(before, place, last);
                    }
                    assert(tasks.to_multiset() =~= init.to_multiset().insert(last));
                    assert forall|id: Text| #[trigger] has_id(all, id) <==> has_id(tasks, id) by {
                        if has_id(all, id) {
                            let i = choose|i: int| 0 <= i < all.len() && #[trigger] all[i].id == id;
                            if i == place {
                                assert(tasks[tasks.len() - 1].id == id);
                            } else {
                                let k = if i < place {
                                    i
                                } else {
                                    i - 1
                                };
                                assert(before[k].id == id);
                                assert(has_id(before, id));
                                assert(has_id(init, id));
                                let m = choose|m: int|
                                    0 <= m < init.len() && #[trigger] init[m].id == id;
                                assert(tasks[m].id == id);
                            }
                        }
                        if has_id(tasks, id) {
                            let i = choose|i: int|
                                0 <= i < tasks.len() && #[trigger] tasks[i].id == id;
                            if i == tasks.len() - 1 {
                                assert(all[place].id == id);
                            } else {
                                assert(init[i].id == id);
                                assert(has_id(init, id));
                                assert(has_id(before, id));
                                let k = choose|k: int|
                                    0 <= k < before.len() && #[trigger] before[k].id == id;
                                let m = if k < place {
                                    k
                                } else {
                                    k + 1
                                };
                                assert(all[m].id == id);
                            }
                        }
                    }
                    if ids_repeat(tasks) {
                        let (i, j) = choose|i: int, j: int|
                            0 <= i < j < tasks.len() && #[trigger] tasks[i].id
                                == #[trigger] tasks[j].id;
                        if j < tasks.len() - 1 {
                            assert(init[i].id == init[j].id);
                            assert(ids_repeat(init));
                        } else {
                            assert(init[i].id == last.id);
                            assert(has_id(init, last.id));
                        }
                    }
                }
            },
        }
    }
}

/// A catalog lists exactly the tasks it was built from, with strictly
/// ascending ids and known dependencies.
pub proof fn catalog_keeps_every_task(tasks: Seq<TaskModel>)
    ensures
        definitions_outcome(tasks) matches Ok(all) ==> catalog_wf(all) && all.to_multiset()
            == tasks.to_multiset(),
{
    lemma_gathered_definitions(tasks);
    match gathered(all_read(tasks)) {
        Ok(all) => {
            lemma_first_unresolved(all, all.len());
        },
        Err(_) => {},
    }
}

/// Building a catalog fails exactly when two tasks share an id or a dependency
/// is unknown. Shared ids are reported first.
pub proof fn catalog_fails_exactly_on_repeated_ids_and_unknown_dependencies(
    tasks: Seq<TaskModel>,
)
    ensures
        definitions_outcome(tasks) is Err <==> ids_repeat(tasks) || !dependencies_known(tasks),
        ids_repeat(tasks) <==> (definitions_outcome(tasks) matches Err(
            CatalogErrorModel::DuplicateTask(_),
        )),
{
    lemma_gathered_definitions(tasks);
    match gathered(all_read(tasks)) {
        Ok(all) => {
            lemma_first_unresolved(all, all.len());
            lemma_same_members(all, tasks);
            if dependencies_known(all) {
                assert forall|i: int, k: int|
                    0 <= i < tasks.len() && 0 <= k < tasks[i].dependencies.len() implies has_id(
                    tasks,
                    #[trigger] tasks[i].dependencies[k],
                ) by {
                    assert(all.contains(tasks[i]));
                    let m = choose|m: int| 0 <= m < all.len() && all[m] == tasks[i];
                    assert(has_id(all, all[m].dependencies[k]));
                }
            }
            if dependencies_known(tasks) {
                assert forall|i: int, k: int|
                    0 <= i < all.len() && 0 <= k < all[i].dependencies.len() implies has_id(
                    all,
                    #[trigger] all[i].dependencies[k],
                ) by {
                    assert(tasks.contains(all[i]));
                    let m = choose|m: int| 0 <= m < tasks.len() && tasks[m] == all[i];
                    assert(has_id(tasks, tasks[m].dependencies[k]));
                }
            }
        },
        Err(_) => {},
    }
}

/// The tasks of manifests that were read.
pub open spec fn tasks_read(manifests: Seq<Result<TaskModel, Text>>) -> Seq<TaskModel> {
    manifests.map_values(|manifest: Result<TaskModel, Text>| manifest->Ok_0)
}

proof fn lemma_gathered_unread(manifests: Seq<Result<TaskModel, Text>>, i: int)
    requires
        0 <= i < manifests.len(),
        manifests[i] is Err,
    ensures
        gathered(manifests) is Err,
    decreases manifests.len(),
{
    if i < manifests.len() - 1 {
        assert(manifests.drop_last()[i] is Err);
        lemma_gathered_unread(manifests.drop_last(), i);
    }
}

/// Loading succeeds exactly where there is a manifest, all were read, no two tasks
/// share an id and every dependency is known. Then it gives the catalog of those
/// tasks. Where there is no manifest, the failure names the directory.
pub proof fn loading_succeeds_exactly_on_sound_manifests(
    dir: Text,
    manifests: Seq<Result<TaskModel, Text>>,
)
    ensures
        ({
            let read = forall|i: int| 0 <= i < manifests.len() ==> (#[trigger] manifests[i]) is Ok;
            let tasks = tasks_read(manifests);
            let outcome = load_outcome(dir, manifests);
            &&& outcome is Ok <==> manifests.len() > 0 && read && !ids_repeat(tasks)
                && dependencies_known(tasks)
            &&& outcome is Ok ==> outcome == definitions_outcome(tasks)
            &&& manifests.len() == 0 <==> outcome == Err::<Seq<TaskModel>, CatalogErrorModel>(
                CatalogErrorModel::NoManifests(dir),
            )
        }),
{
    let tasks = tasks_read(manifests);
    if forall|i: int| 0 <= i < manifests.len() ==> (#[trigger] manifests[i]) is Ok {
        assert(all_read(tasks) =~= manifests);
        lemma_gathered_definitions(tasks);
        catalog_fails_exactly_on_repeated_ids_and_unknown_dependencies(tasks);
        match gathered(manifests) {
            Ok(all) => {
                vstd::seq_lib::to_multiset_len(all);
                vstd::seq_lib::to_multiset_len(tasks);
            },
            Err(_) => {},
        }
    } else {
        let i = choose|i: int| 0 <= i < manifests.len() && !((#[trigger] manifests[i]) is Ok);
        lemma_gathered_unread(manifests, i);
        lemma_gathered_failures(manifests);
    }
}

proof fn lemma_gathered_failures(manifests: Seq<Result<TaskModel, Text>>)
    ensures
        gathered(manifests) matches Err(error) ==> error is Manifest || error is DuplicateTask,
    decreases manifests.len(),
{
    if manifests.len() > 0 {
        lemma_gathered_failures(manifests.drop_last());
    }
}

pub proof fn lemma_same_members(first: Seq<TaskModel>, second: Seq<TaskModel>)
    requires
        first.to_multiset() == second.to_multiset(),
    ensures
        forall|i: int| 0 <= i < first.len() ==> second.contains(#[trigger] first[i]),
        forall|i: int| 0 <= i < second.len() ==> first.contains(#[trigger] second[i]),
{
    broadcast use vstd::seq_lib::group_to_multiset_ensures;

    assert forall|i: int| 0 <= i < first.len() implies second.contains(#[trigger] first[i]) by {
        assert(first.contains(first[i]));
        assert(first.to_multiset().count(first[i]) > 0);
    }
    assert forall|i: int| 0 <= i < second.len() implies first.contains(#[trigger] second[i]) by {
        assert(second.contains(second[i]));
        assert(second.to_multiset().count(second[i]) > 0);
    }
}

proof fn lemma_ascending_unique(first: Seq<TaskModel>, second: Seq<TaskModel>)
    requires
        ids_ascend(first),
        ids_ascend(second),
        first.to_multiset() == second.to_multiset(),
    ensures
        first == second,
    decreases first.len(),
{
    broadcast use vstd::seq_lib::group_to_multiset_ensures;

    vstd::seq_lib::to_multiset_len(first);
    vstd::seq_lib::to_multiset_len(second);
    if first.len() == 0 {
        assert(first =~= second);
    } else {
        lemma_same_members(first, second);
        assert(second.contains(first[first.len() - 1]));
        assert(first.contains(second[second.len() - 1]));
        let i = choose|i: int| 0 <= i < second.len() && second[i] == first.last();
        let j = choose|j: int| 0 <= j < first.len() && first[j] == second.last();
        if i < second.len() - 1 && j < first.len() - 1 {
            text::lemma_text_lt_transitive(
                first.last().id,
                second.last().id,
                first.last().id,
            );
            text::lemma_text_lt_irreflexive(first.last().id);
        }
        if i == second.len() - 1 {
            assert(first.last() == second.last());
        } else {
            assert(j == first.len() - 1);
        }
        let a = first.drop_last();
        let b = second.drop_last();
        assert(first =~= a.push(first.last()));
        assert(second =~= b.push(second.last()));
        assert(a.to_multiset() =~= first.to_multiset().remove(first.last()));
        assert(b.to_multiset() =~= second.to_multiset().remove(second.last()));
        lemma_ascending_unique(a, b);
        assert(first =~= second);
    }
}

/// The order in which tasks are read does not matter: the catalog is the same.
pub proof fn catalog_ignores_reading_order(first: Seq<TaskModel>, second: Seq<TaskModel>)
    requires
        first.to_multiset() == second.to_multiset(),
        definitions_outcome(first) is Ok,
    ensures
        definitions_outcome(second) == definitions_outcome(first),
{
    lemma_gathered_definitions(first);
    lemma_gathered_definitions(second);
    match gathered(all_read(second)) {
        Ok(all) => {
            lemma_ascending_unique(gathered(all_read(first))->Ok_0, all);
        },
        Err(_) => {
            let all = gathered(all_read(first))->Ok_0;
            lemma_repeats_in_multiset(all, second);
        },
    }
}

proof fn lemma_repeats_in_multiset(ascending: Seq<TaskModel>, other: Seq<TaskModel>)
    requires
        ids_ascend(ascending),
        ascending.to_multiset() == other.to_multiset(),
    ensures
        !ids_repeat(other),
{
    broadcast use vstd::seq_lib::group_to_multiset_ensures;

    if ids_repeat(other) {
        let (i, j) = choose|i: int, j: int|
            0 <= i < j < other.len() && #[trigger] other[i].id == #[trigger] other[j].id;
        lemma_same_members(ascending, other);
        assert(ascending.contains(other[i]));
        assert(ascending.contains(other[j]));
        let m = choose|m: int| 0 <= m < ascending.len() && ascending[m] == other[i];
        let n = choose|n: int| 0 <= n < ascending.len() && ascending[n] == other[j];
        lemma_ids_distinct(ascending, m, n);
        assert(other[i] == other[j]);
        assert(ascending.no_duplicates()) by {
            assert forall|a: int, b: int|
                0 <= a < ascending.len() && 0 <= b < ascending.len() && a != b implies ascending[a]
                != ascending[b] by {
                if ascending[a] == ascending[b] {
                    lemma_ids_distinct(ascending, a, b);
                }
            }
        }
        ascending.lemma_multiset_has_no_duplicates();
        assert(other.to_multiset().count(other[i]) <= 1);
        let rest = other.remove(j);
        assert(other.to_multiset() =~= rest.to_multiset().insert(other[j])) by {
            vstd::seq_lib::to_multiset_remove(other, j);
        }
        assert(rest[i] == other[i]);
        assert(rest.contains(other[i]));
        assert(rest.to_multiset().count(other[i]) >= 1);
    }
}

} // verus!

//! Tasks as the cockpit shows them.

use crate::catalog::{MissingRequirementPolicy, TaskDefinition, TaskModel};
use crate::failure::{Failure, FailureModel};
use crate::runner;
use crate::runner::{OutcomeStatus, PreflightReport, ReportModel};
use crate::text::{clone_optional, clone_texts, contains_text, text_eq, Text};
use vstd::prelude::*;

verus! {

/// What the cockpit is doing.
#[derive(Debug, Clone, Copy, PartialEq, Eq, Structural)]
pub enum Screen {
    Select,
    ConfirmDangerous,
    Running,
    Summary,
}

/// How far a task has come in the current or latest run.
#[derive(Debug, Clone, Copy, PartialEq, Eq, Structural)]
pub enum TaskState {
    Pending,
    Running,
    Success,
    Warn,
    Fail,
}

/// Whether a task could run on this machine, as its preflight report says.
#[derive(Debug, Clone, Copy, PartialEq, Eq, Structural)]
pub enum AvailabilityState {
    Available,
    WarnUnavailable,
    FailUnavailable,
}

/// The tasks that the list is limited to.
#[derive(Debug, Clone, Copy, PartialEq, Eq, Structural)]
pub enum ScopeFilter {
    All,
    Selected,
    Dangerous,
    Available,
}

/// The name under which a task state is shown.
pub open spec fn task_state_label(state: TaskState) -> Text {
    match state {
        TaskState::Pending => "pending"@,
        TaskState::Running => "running"@,
        TaskState::Success => "ok"@,
        TaskState::Warn => "warn"@,
        TaskState::Fail => "fail"@,
    }
}

/// The state of a task that ended.
pub open spec fn state_after(status: OutcomeStatus) -> TaskState {
    match status {
        OutcomeStatus::Success => TaskState::Success,
        OutcomeStatus::Warn => TaskState::Warn,
        OutcomeStatus::Fail => TaskState::Fail,
    }
}

impl TaskState {
    /// The name under which the state is shown.
    pub fn label(self) -> (res: &'static str)
        ensures
            res@ == task_state_label(self),
    {
        match self {
            TaskState::Pending => "pending",
            TaskState::Running => "running",
            TaskState::Success => "ok",
            TaskState::Warn => "warn",
            TaskState::Fail => "fail",
        }
    }

    /// The state of a task that ended.
    pub fn from_outcome(status: OutcomeStatus) -> (res: Self)
        ensures
            res == state_after(status),
    {
        match status {
            OutcomeStatus::Success => TaskState::Success,
            OutcomeStatus::Warn => TaskState::Warn,
            OutcomeStatus::Fail => TaskState::Fail,
        }
    }
}

/// The name under which an availability is shown.
pub open spec fn availability_label(availability: AvailabilityState) -> Text {
    match availability {
        AvailabilityState::Available => "available"@,
        AvailabilityState::WarnUnavailable => "unavailable, will warn"@,
        AvailabilityState::FailUnavailable => "unavailable, will fail"@,
    }
}

/// What a preflight status says about availability.
pub open spec fn availability_of(status: Option<OutcomeStatus>) -> AvailabilityState {
    match status {
        Some(OutcomeStatus::Warn) => AvailabilityState::WarnUnavailable,
        Some(OutcomeStatus::Fail) => AvailabilityState::FailUnavailable,
        _ => AvailabilityState::Available,
    }
}

impl AvailabilityState {
    /// The name under which the availability is shown.
    pub fn label(self) -> (res: &'static str)
        ensures
            res@ == availability_label(self),
    {
        match self {
            AvailabilityState::Available => "available",
            AvailabilityState::WarnUnavailable => "unavailable, will warn",
            AvailabilityState::FailUnavailable => "unavailable, will fail",
        }
    }

    /// What a preflight status says about availability.
    pub fn from_preflight(status: Option<OutcomeStatus>) -> (res: Self)
        ensures
            res == availability_of(status),
    {
        match status {
            Some(OutcomeStatus::Warn) => AvailabilityState::WarnUnavailable,
            Some(OutcomeStatus::Fail) => AvailabilityState::FailUnavailable,
            _ => AvailabilityState::Available,
        }
    }
}

/// The name under which a scope is shown.
pub open spec fn scope_label(scope: ScopeFilter) -> Text {
    match scope {
        ScopeFilter::All => "all"@,
        ScopeFilter::Selected => "selected"@,
        ScopeFilter::Dangerous => "dangerous"@,
        ScopeFilter::Available => "available"@,
    }
}

/// The scope that follows.
pub open spec fn scope_after(scope: ScopeFilter) -> ScopeFilter {
    match scope {
        ScopeFilter::All => ScopeFilter::Selected,
        ScopeFilter::Selected => ScopeFilter::Dangerous,
        ScopeFilter::Dangerous => ScopeFilter::Available,
        ScopeFilter::Available => ScopeFilter::All,
    }
}

impl ScopeFilter {
    /// The name under which the scope is shown.
    pub fn label(self) -> (res: &'static str)
        ensures
            res@ == scope_label(self),
    {
        match self {
            ScopeFilter::All => "all",
            ScopeFilter::Selected => "selected",
            ScopeFilter::Dangerous => "dangerous",
            ScopeFilter::Available => "available",
        }
    }

    /// The scope that follows.
    pub fn next(self) -> (res: Self)
        ensures
            res == scope_after(self),
    {
        match self {
            ScopeFilter::All => ScopeFilter::Selected,
            ScopeFilter::Selected => ScopeFilter::Dangerous,
            ScopeFilter::Dangerous => ScopeFilter::Available,
            ScopeFilter::Available => ScopeFilter::All,
        }
    }
}

/// A task as the cockpit shows it.
#[derive(Debug, PartialEq, Eq)]
pub struct TaskItem {
    pub id: String,
    pub label: String,
    pub description: String,
    pub category: String,
    pub tags: Vec<String>,
    pub notes: Vec<String>,
    pub dangerous: bool,
    pub danger_message: Option<String>,
    pub dependencies: Vec<String>,
    pub requires_commands: Vec<String>,
    pub requires_paths: Vec<String>,
    pub on_missing: MissingRequirementPolicy,
    pub selected: bool,
    pub state: TaskState,
    pub availability: AvailabilityState,
    pub preflight_messages: Vec<String>,
}

/// The content of a [`TaskItem`].
#[verifier::ext_equal]
pub struct ItemModel {
    pub id: Text,
    pub label: Text,
    pub description: Text,
    pub category: Text,
    pub tags: Seq<Text>,
    pub notes: Seq<Text>,
    pub dangerous: bool,
    pub danger_message: Option<Text>,
    pub dependencies: Seq<Text>,
    pub requires_commands: Seq<Text>,
    pub requires_paths: Seq<Text>,
    pub on_missing: MissingRequirementPolicy,
    pub selected: bool,
    pub state: TaskState,
    pub availability: AvailabilityState,
    pub preflight_messages: Seq<Text>,
}

impl View for TaskItem {
    type V = ItemModel;

    open spec fn view(&self) -> ItemModel {
        ItemModel {
            id: self.id@,
            label: self.label@,
            description: self.description@,
            category: self.category@,
            tags: self.tags.deep_view(),
            notes: self.notes.deep_view(),
            dangerous: self.dangerous,
            danger_message: self.danger_message.deep_view(),
            dependencies: self.dependencies.deep_view(),
            requires_commands: self.requires_commands.deep_view(),
            requires_paths: self.requires_paths.deep_view(),
            on_missing: self.on_missing,
            selected: self.selected,
            state: self.state,
            availability: self.availability,
            preflight_messages: self.preflight_messages.deep_view(),
        }
    }
}

impl DeepView for TaskItem {
    type V = ItemModel;

    open spec fn deep_view(&self) -> ItemModel {
        self.view()
    }
}

impl Clone for TaskItem {
    fn clone(&self) -> (res: Self)
        ensures
            res@ == self@,
    {
        TaskItem {
            id: self.id.clone(),
            label: self.label.clone(),
            description: self.description.clone(),
            category: self.category.clone(),
            tags: clone_texts(&self.tags),
            notes: clone_texts(&self.notes),
            dangerous: self.dangerous,
            danger_message: clone_optional(&self.danger_message),
            dependencies: clone_texts(&self.dependencies),
            requires_commands: clone_texts(&self.requires_commands),
            requires_paths: clone_texts(&self.requires_paths),
            on_missing: self.on_missing,
            selected: self.selected,
            state: self.state,
            availability: self.availability,
            preflight_messages: clone_texts(&self.preflight_messages),
        }
    }
}

/// A task before anything has happened to it.
pub open spec fn item_of(task: TaskModel) -> ItemModel {
    ItemModel {
        id: task.id,
        label: task.label,
        description: task.description,
        category: task.category,
        tags: task.tags,
        notes: task.notes,
        dangerous: task.dangerous,
        danger_message: task.danger_message,
        dependencies: task.dependencies,
        requires_commands: task.preflight.requires_commands,
        requires_paths: task.preflight.requires_paths,
        on_missing: task.preflight.on_missing,
        selected: task.default_selected,
        state: TaskState::Pending,
        availability: AvailabilityState::Available,
        preflight_messages: Seq::empty(),
    }
}

/// The item shows `task`.
pub open spec fn shows(item: ItemModel, task: TaskModel) -> bool {
    item == ItemModel {
        selected: item.selected,
        state: item.state,
        availability: item.availability,
        preflight_messages: item.preflight_messages,
        ..item_of(task)
    }
}

impl TaskItem {
    /// A task before anything has happened to it.
    pub fn from_definition(task: &TaskDefinition) -> (res: Self)
        ensures
            res@ == item_of(task@),
    {
        let res = TaskItem {
            id: task.id.clone(),
            label: task.label.clone(),
            description: task.description.clone(),
            category: task.category.clone(),
            tags: clone_texts(&task.tags),
            notes: clone_texts(&task.notes),
            dangerous: task.dangerous,
            danger_message: clone_optional(&task.danger_message),
            dependencies: clone_texts(&task.dependencies),
            requires_commands: clone_texts(&task.preflight.requires_commands),
            requires_paths: clone_texts(&task.preflight.requires_paths),
            on_missing: task.preflight.on_missing,
            selected: task.default_selected,
            state: TaskState::Pending,
            availability: AvailabilityState::Available,
            preflight_messages: Vec::new(),
        };
        assert(res@ =~= item_of(task@));
        res
    }
}

/// An item with what its preflight check found, or why it could not be made.
pub open spec fn inspected(item: ItemModel, report: Result<ReportModel, FailureModel>) -> ItemModel {
    match report {
        Ok(report) => ItemModel {
            availability: availability_of(report.status),
            preflight_messages: report.messages,
            ..item
        },
        Err(failure) => ItemModel {
            availability: AvailabilityState::FailUnavailable,
            preflight_messages: seq![failure.full_message()],
            ..item
        },
    }
}

impl TaskItem {
    /// Takes note of what the preflight check found, or why it could not be made.
    pub fn inspect(&mut self, report: &Result<PreflightReport, Failure>)
        ensures
            final(self)@ == inspected(old(self)@, runner::report_result(*report)),
    {
        match report {
            Ok(report) => {
                self.availability = AvailabilityState::from_preflight(report.status);
                self.preflight_messages = clone_texts(&report.messages);
            },
            Err(failure) => {
                let mut messages: Vec<String> = Vec::new();
                messages.push(failure.full_message());
                assert(messages.deep_view() =~= seq![failure@.full_message()]);
                self.availability = AvailabilityState::FailUnavailable;
                self.preflight_messages = messages;
            },
        }
    }
}

/// The item is among those that the list is limited to.
pub open spec fn in_scope(item: ItemModel, scope: ScopeFilter) -> bool {
    match scope {
        ScopeFilter::All => true,
        ScopeFilter::Selected => item.selected,
        ScopeFilter::Dangerous => item.dangerous,
        ScopeFilter::Available => item.availability == AvailabilityState::Available,
    }
}

/// The item passes all filters.
pub open spec fn passes(
    item: ItemModel,
    scope: ScopeFilter,
    category: Option<Text>,
    tag: Option<Text>,
) -> bool {
    &&& in_scope(item, scope)
    &&& category matches Some(wanted) ==> item.category == wanted
    &&& tag matches Some(wanted) ==> item.tags.contains(wanted)
}

impl TaskItem {
    /// Whether the item passes all filters.
    pub fn passes_filters(
        &self,
        scope: ScopeFilter,
        category: &Option<String>,
        tag: &Option<String>,
    ) -> (res: bool)
        ensures
            res == passes(self@, scope, category.deep_view(), tag.deep_view()),
    {
        let scoped = match scope {
            ScopeFilter::All => true,
            ScopeFilter::Selected => self.selected,
            ScopeFilter::Dangerous => self.dangerous,
            ScopeFilter::Available => match self.availability {
                AvailabilityState::Available => true,
                _ => false,
            },
        };
        let categorized = match category {
            Some(wanted) => text_eq(self.category.as_str(), wanted.as_str()),
            None => true,
        };
        let tagged = match tag {
            Some(wanted) => contains_text(&self.tags, wanted.as_str()),
            None => true,
        };
        scoped && categorized && tagged
    }
}

} // verus!

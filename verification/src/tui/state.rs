//! The cockpit's state.

use crate::catalog::{Catalog, ExecutionPlan, TaskDefinition, TaskModel};
use crate::failure::{Failure, FailureModel};
use crate::persistence;
use crate::persistence::{clone_history, HistoryEntry, PersistedProfile, PersistedState};
use crate::profiles;
use crate::profiles::{built_in_profiles, ProfileDefinition};
use crate::runner;
use crate::runner::{
    OutcomeStatus, PreflightReport, RunOptions, RunSummary, RunnerEvent, StreamKind, SummaryModel,
};
use crate::text::{clone_optional, clone_texts, concat2, concat3, contains_text, text_eq, Text};
use crate::tui::items;
use crate::tui::items::{ItemModel, Screen, ScopeFilter, TaskItem, TaskState};
use crate::tui::model;
use crate::tui::model::{AppModel, CompletedModel, EntryModel, LaunchModel, MAX_LOG_LINES};
use std::collections::VecDeque;
use vstd::prelude::*;

verus! {

/// The state of the cockpit.
#[derive(Debug)]
pub struct AppState {
    catalog: Catalog,
    tasks: Vec<TaskItem>,
    selected_index: usize,
    screen: Screen,
    options: RunOptions,
    logs: VecDeque<String>,
    summary: Option<RunSummary>,
    status_message: Option<String>,
    pending_plan: Option<ExecutionPlan>,
    custom: PersistedProfile,
    active: usize,
    history: Vec<HistoryEntry>,
    last_profile_id: Option<String>,
    scope: ScopeFilter,
    category_filter: Option<String>,
    tag_filter: Option<String>,
    dirty: bool,
}

/// Lines, as content.
pub open spec fn line_texts(lines: Seq<String>) -> Seq<Text> {
    lines.map_values(|line: String| line@)
}

impl View for AppState {
    type V = AppModel;

    closed spec fn view(&self) -> AppModel {
        AppModel {
            catalog: self.catalog@,
            items: self.tasks.deep_view(),
            cursor: self.selected_index as nat,
            screen: self.screen,
            options: self.options,
            logs: line_texts(self.logs@),
            summary: self.summary.deep_view(),
            status: self.status_message.deep_view(),
            pending: self.pending_plan.deep_view(),
            custom: self.custom@,
            active: self.active as nat,
            history: self.history.deep_view(),
            last_profile_id: self.last_profile_id.deep_view(),
            scope: self.scope,
            category: self.category_filter.deep_view(),
            tag: self.tag_filter.deep_view(),
            dirty: self.dirty,
        }
    }
}

/// A copy of the lines.
fn clone_lines(lines: &VecDeque<String>) -> (res: VecDeque<String>)
    ensures
        line_texts(res@) == line_texts(lines@),
{
    let mut res: VecDeque<String> = VecDeque::new();
    let mut i: usize = 0;
    while i < lines.len()
        invariant
            i <= lines@.len(),
            line_texts(res@) =~= line_texts(lines@).take(i as int),
        decreases lines@.len() - i,
    {
        let ghost before = res@;
        let line = lines[i].clone();
        assert(line@ == line_texts(lines@)[i as int]);
        res.push_back(line);
        assert(line_texts(res@) =~= line_texts(before).push(line_texts(lines@)[i as int]));
        i += 1;
    }
    assert(line_texts(lines@).take(lines@.len() as int) =~= line_texts(lines@));
    res
}

/// A copy of the items.
fn clone_items(all: &Vec<TaskItem>) -> (res: Vec<TaskItem>)
    ensures
        res.deep_view() == all.deep_view(),
{
    let mut res: Vec<TaskItem> = Vec::new();
    let mut i: usize = 0;
    while i < all.len()
        invariant
            i <= all.len(),
            res.deep_view() =~= all.deep_view().take(i as int),
        decreases all.len() - i,
    {
        let ghost before = res.deep_view();
        let item = all[i].clone();
        res.push(item);
        assert(res.deep_view() =~= before.push(all.deep_view()[i as int]));
        i += 1;
    }
    assert(all.deep_view().take(all.len() as int) =~= all.deep_view());
    res
}

impl Clone for AppState {
    fn clone(&self) -> (res: Self)
        ensures
            res@ == self@,
    {
        let summary = match &self.summary {
            Some(summary) => Some(summary.clone()),
            None => None,
        };
        let pending_plan = match &self.pending_plan {
            Some(plan) => Some(plan.clone()),
            None => None,
        };
        AppState {
            catalog: self.catalog.clone(),
            tasks: clone_items(&self.tasks),
            selected_index: self.selected_index,
            screen: self.screen,
            options: self.options,
            logs: clone_lines(&self.logs),
            summary,
            status_message: clone_optional(&self.status_message),
            pending_plan,
            custom: self.custom.clone(),
            active: self.active,
            history: clone_history(&self.history),
            last_profile_id: clone_optional(&self.last_profile_id),
            scope: self.scope,
            category_filter: clone_optional(&self.category_filter),
            tag_filter: clone_optional(&self.tag_filter),
            dirty: self.dirty,
        }
    }
}

/// The ids of the tasks that are selected by default.
fn find_default_ids(tasks: &Vec<TaskDefinition>) -> (res: Vec<String>)
    ensures
        res.deep_view() == model::default_ids(tasks.deep_view()),
{
    let mut res: Vec<String> = Vec::new();
    assert(res.deep_view() =~= Seq::empty());
    let mut i: usize = 0;
    while i < tasks.len()
        invariant
            i <= tasks.len(),
            res.deep_view() == model::default_ids(tasks.deep_view().take(i as int)),
        decreases tasks.len() - i,
    {
        proof {
            let longer = tasks.deep_view().take(i + 1);
            assert(longer.drop_last() =~= tasks.deep_view().take(i as int));
            assert(longer.last() == tasks@[i as int]@);
        }
        if tasks[i].default_selected {
            let ghost before = res.deep_view();
            res.push(tasks[i].id.clone());
            assert(res.deep_view() =~= before.push(tasks@[i as int]@.id));
        }
        i += 1;
    }
    assert(tasks.deep_view().take(tasks.len() as int) =~= tasks.deep_view());
    res
}

/// All profiles, the user's own first.
fn list_profiles(custom: &PersistedProfile) -> (res: Vec<ProfileDefinition>)
    ensures
        res.deep_view() == model::profile_list(custom@),
{
    let mut res: Vec<ProfileDefinition> = Vec::new();
    res.push(ProfileDefinition::custom(clone_texts(&custom.selected_tasks), custom.options));
    let mut standard = built_in_profiles();
    let ghost tail = standard.deep_view();
    res.append(&mut standard);
    assert(res.deep_view() =~= model::profile_list(custom@)) by {
        assert(tail == profiles::standard_profiles());
    }
    res
}

/// The position of the profile with this id.
fn profile_position(list: &Vec<ProfileDefinition>, id: &str) -> (res: Option<usize>)
    ensures
        match res {
            Some(i) => model::find_profile(list.deep_view(), id@, 0) == Some(i as nat) && i
                < list.len(),
            None => model::find_profile(list.deep_view(), id@, 0) is None,
        },
{
    let mut i: usize = 0;
    while i < list.len()
        invariant
            i <= list.len(),
            model::find_profile(list.deep_view(), id@, 0) == model::find_profile(
                list.deep_view(),
                id@,
                i as nat,
            ),
        decreases list.len() - i,
    {
        if text_eq(list[i].id.as_str(), id) {
            return Some(i);
        }
        i += 1;
    }
    None
}

impl AppState {
    /// The cockpit on a catalog for which nothing was saved.
    pub fn new(catalog: Catalog, options: RunOptions) -> (res: Self)
        ensures
            res@ == model::opened(catalog@, options, persistence::initial_state()),
            model::app_wf(res@),
    {
        AppState::restore(catalog, options, PersistedState::default())
    }

    /// The cockpit on a catalog as it was saved: with the saved profile, the
    /// flags of the profile and of the command line, and the saved history.
    pub fn restore(catalog: Catalog, options: RunOptions, persisted: PersistedState) -> (res: Self)
        ensures
            res@ == model::opened(catalog@, options, persisted@),
            model::app_wf(res@),
    {
        let ghost saved = persisted@;
        let mut persisted = persisted;
        persisted.trim_history();
        let definitions = catalog.tasks();
        let ghost tasks = definitions.deep_view();
        let selected_tasks = if persisted.custom_profile.selected_tasks.len() == 0 {
            find_default_ids(definitions)
        } else {
            clone_texts(&persisted.custom_profile.selected_tasks)
        };
        let custom = PersistedProfile {
            selected_tasks,
            options: persisted.custom_profile.options,
        };
        assert(custom@ =~= model::initial_custom(tasks, saved.custom_profile));
        let list = list_profiles(&custom);
        let active: usize = match profile_position(&list, persisted.active_profile_id.as_str()) {
            Some(i) => i,
            None => 0,
        };
        let profile = &list[active];
        let mut items: Vec<TaskItem> = Vec::new();
        let ghost wanted = model::with_selection(
            tasks.map_values(|task: TaskModel| items::item_of(task)),
            profile@.selected_tasks,
        );
        let mut i: usize = 0;
        while i < definitions.len()
            invariant
                i <= definitions.len(),
                tasks == definitions.deep_view(),
                wanted == model::with_selection(
                    tasks.map_values(|task: TaskModel| items::item_of(task)),
                    profile@.selected_tasks,
                ),
                items.deep_view() =~= wanted.take(i as int),
            decreases definitions.len() - i,
        {
            let mut item = TaskItem::from_definition(&definitions[i]);
            item.selected = contains_text(&profile.selected_tasks, item.id.as_str());
            let ghost before = items.deep_view();
            let ghost content = item@;
            assert(content == wanted[i as int]);
            items.push(item);
            assert(items.deep_view() =~= before.push(content));
            i += 1;
        }
        assert(wanted.take(wanted.len() as int) =~= wanted);
        let last_profile_id = if persisted.history.len() > 0 {
            Some(persisted.history[persisted.history.len() - 1].profile_id.clone())
        } else {
            None
        };
        let merged = RunOptions {
            dry_run: options.dry_run || profile.options.dry_run,
            verbose: options.verbose || profile.options.verbose,
            brew_cleanup: options.brew_cleanup || profile.options.brew_cleanup,
            npm_audit: options.npm_audit || profile.options.npm_audit,
        };
        let res = AppState {
            catalog,
            tasks: items,
            selected_index: 0,
            screen: Screen::Select,
            options: merged,
            logs: VecDeque::new(),
            summary: None,
            status_message: None,
            pending_plan: None,
            custom,
            active,
            history: persisted.history,
            last_profile_id,
            scope: ScopeFilter::All,
            category_filter: None,
            tag_filter: None,
            dirty: false,
        };
        proof {
            model::lemma_opened_fits(tasks, options, saved);
            assert(res@ =~= model::opened(tasks, options, saved));
        }
        res
    }
}

impl AppState {
    /// The tasks, by ascending id.
    pub fn tasks(&self) -> (res: &Vec<TaskItem>)
        ensures
            res.deep_view() == self@.items,
    {
        &self.tasks
    }

    /// The position of the cursor.
    pub fn selected_index(&self) -> (res: usize)
        ensures
            res == self@.cursor,
    {
        self.selected_index
    }

    pub fn screen(&self) -> (res: Screen)
        ensures
            res == self@.screen,
    {
        self.screen
    }

    pub fn options(&self) -> (res: RunOptions)
        ensures
            res == self@.options,
    {
        self.options
    }

    /// The latest lines of activity.
    pub fn logs(&self) -> (res: &VecDeque<String>)
        ensures
            line_texts(res@) == self@.logs,
    {
        &self.logs
    }

    /// How the latest run ended.
    pub fn summary(&self) -> (res: Option<&RunSummary>)
        ensures
            res.deep_view() == self@.summary,
    {
        match &self.summary {
            Some(summary) => Some(summary),
            None => None,
        }
    }

    pub fn status_message(&self) -> (res: Option<&str>)
        ensures
            res.deep_view() == self@.status,
    {
        match &self.status_message {
            Some(message) => Some(message.as_str()),
            None => None,
        }
    }

    /// The task under the cursor.
    pub fn selected_task(&self) -> (res: &TaskItem)
        requires
            model::app_wf(self@),
            self@.items.len() > 0,
        ensures
            res@ == self@.items[self@.cursor as int],
    {
        &self.tasks[self.selected_index]
    }

    /// Whether there is something to save.
    pub fn is_dirty(&self) -> (res: bool)
        ensures
            res == self@.dirty,
    {
        self.dirty
    }

    /// The runs that took place, the latest last.
    pub fn history(&self) -> (res: &Vec<HistoryEntry>)
        ensures
            res.deep_view() == self@.history,
    {
        &self.history
    }

    /// The active profile.
    pub fn active_profile(&self) -> (res: ProfileDefinition)
        requires
            model::app_wf(self@),
        ensures
            res@ == self@.active_profile(),
    {
        let list = list_profiles(&self.custom);
        list[self.active].clone()
    }

    /// The id of the active profile.
    pub fn active_profile_id(&self) -> (res: String)
        requires
            model::app_wf(self@),
        ensures
            res@ == self@.active_profile().id,
    {
        let list = list_profiles(&self.custom);
        list[self.active].id.clone()
    }

    fn is_visible(&self, i: usize) -> (res: bool)
        requires
            i < self@.items.len(),
        ensures
            res == self@.visible(i as int),
    {
        self.tasks[i].passes_filters(self.scope, &self.category_filter, &self.tag_filter)
    }

    fn seek(&self, from: usize) -> (res: Option<usize>)
        ensures
            match res {
                Some(i) => self@.seek(from as int) == Some(i as int) && i < self@.items.len(),
                None => self@.seek(from as int) is None,
            },
    {
        let mut i: usize = from;
        while i < self.tasks.len()
            invariant
                self@.seek(from as int) == self@.seek(i as int),
            decreases self.tasks.len() - i,
        {
            if self.is_visible(i) {
                return Some(i);
            }
            i += 1;
        }
        None
    }

    /// The last visible position below `end`.
    fn seek_back(&self, end: usize) -> (res: Option<usize>)
        requires
            end <= self@.items.len(),
        ensures
            match res {
                Some(i) => self@.seek_back(end - 1) == Some(i as int) && i < self@.items.len(),
                None => self@.seek_back(end - 1) is None,
            },
    {
        let mut i: usize = end;
        while i > 0
            invariant
                i <= end <= self@.items.len(),
                self@.seek_back(end - 1) == self@.seek_back(i - 1),
            decreases i,
        {
            if self.is_visible(i - 1) {
                return Some(i - 1);
            }
            i -= 1;
        }
        None
    }

    fn settle(&mut self)
        ensures
            final(self)@ == old(self)@.settled(),
    {
        if self.selected_index < self.tasks.len() && self.is_visible(self.selected_index) {
            return;
        }
        match self.seek(0) {
            Some(i) => {
                self.selected_index = i;
            },
            None => {},
        }
    }

    /// The task under the cursor, if it passes the filters.
    pub fn selected_visible_task(&self) -> (res: Option<&TaskItem>)
        ensures
            res.deep_view() == self@.selected_visible_task(),
    {
        if self.selected_index < self.tasks.len() && self.is_visible(self.selected_index) {
            Some(&self.tasks[self.selected_index])
        } else {
            None
        }
    }

    /// Moves the cursor to the next visible task, from the last on to the first.
    pub fn move_next(&mut self)
        requires
            model::app_wf(old(self)@),
        ensures
            final(self)@ == old(self)@.move_next(),
            model::app_wf(final(self)@),
    {
        proof {
            model::lemma_moves_fit(self@);
        }
        if self.tasks.len() == 0 {
            return;
        }
        match self.seek(self.selected_index + 1) {
            Some(i) => {
                self.selected_index = i;
            },
            None => match self.seek(0) {
                Some(i) => {
                    self.selected_index = i;
                },
                None => {},
            },
        }
    }

    /// Moves the cursor to the previous visible task, from the first on to the
    /// last.
    pub fn move_previous(&mut self)
        requires
            model::app_wf(old(self)@),
        ensures
            final(self)@ == old(self)@.move_previous(),
            model::app_wf(final(self)@),
    {
        proof {
            model::lemma_moves_fit(self@);
        }
        match self.seek_back(self.selected_index) {
            Some(i) => {
                self.selected_index = i;
            },
            None => match self.seek_back(self.tasks.len()) {
                Some(i) => {
                    self.selected_index = i;
                },
                None => {},
            },
        }
    }

    /// The ids of the selected tasks.
    fn find_selected_ids(&self) -> (res: Vec<String>)
        ensures
            res.deep_view() == model::selected_ids(self@.items),
    {
        let tasks = &self.tasks;
        let mut res: Vec<String> = Vec::new();
        assert(res.deep_view() =~= Seq::empty());
        let mut i: usize = 0;
        while i < tasks.len()
            invariant
                i <= tasks.len(),
                res.deep_view() == model::selected_ids(tasks.deep_view().take(i as int)),
            decreases tasks.len() - i,
        {
            proof {
                let longer = tasks.deep_view().take(i + 1);
                assert(longer.drop_last() =~= tasks.deep_view().take(i as int));
                assert(longer.last() == tasks@[i as int]@);
            }
            if tasks[i].selected {
                let ghost before = res.deep_view();
                res.push(tasks[i].id.clone());
                assert(res.deep_view() =~= before.push(tasks@[i as int]@.id));
            }
            i += 1;
        }
        assert(tasks.deep_view().take(tasks.len() as int) =~= tasks.deep_view());
        res
    }

    fn edit(&mut self)
        requires
            model::parts_fit(old(self)@),
        ensures
            final(self)@ == old(self)@.edited(),
            model::app_wf(final(self)@),
    {
        proof {
            model::lemma_edited_fits(self@);
        }
        let selected_tasks = self.find_selected_ids();
        self.custom = PersistedProfile { selected_tasks, options: self.options };
        self.active = 0;
        self.dirty = true;
        self.settle();
    }

    /// Switches the task under the cursor on or off.
    pub fn toggle_current(&mut self)
        requires
            model::app_wf(old(self)@),
        ensures
            final(self)@ == old(self)@.toggle_current(),
            model::app_wf(final(self)@),
    {
        if self.screen != Screen::Select {
            return;
        }
        if self.selected_index >= self.tasks.len() || !self.is_visible(self.selected_index) {
            return;
        }
        let i: usize = self.selected_index;
        let selected = self.tasks[i].selected;
        self.tasks[i].selected = !selected;
        proof {
            let item = old(self)@.items[i as int];
            let changed = AppModel {
                items: old(self)@.items.update(
                    i as int,
                    ItemModel { selected: !item.selected, ..item },
                ),
                ..old(self)@
            };
            assert(self@ =~= changed);
            assert forall|k: int| 0 <= k < self@.items.len() implies items::shows(
                #[trigger] self@.items[k],
                self@.catalog[k],
            ) by {
                assert(items::shows(old(self)@.items[k], old(self)@.catalog[k]));
            }
        }
        self.edit();
    }

    fn select_every(&mut self, selected: bool)
        requires
            model::app_wf(old(self)@),
        ensures
            final(self)@ == old(self)@.select_every(selected),
            model::app_wf(final(self)@),
    {
        if self.screen != Screen::Select {
            return;
        }
        let ghost wanted = model::all_selected(self@.items, selected);
        let ghost start = self@;
        let mut i: usize = 0;
        while i < self.tasks.len()
            invariant
                i <= self.tasks.len(),
                self.tasks.len() == start.items.len(),
                wanted == model::all_selected(start.items, selected),
                self@ == (AppModel { items: self@.items, ..start }),
                self@.items =~= wanted.take(i as int) + start.items.skip(i as int),
            decreases self.tasks.len() - i,
        {
            let ghost before = self@;
            assert(before.items[i as int] == start.items[i as int]);
            self.tasks[i].selected = selected;
            assert(self@.items =~= before.items.update(i as int, wanted[i as int]));
            i += 1;
        }
        proof {
            assert(self@.items =~= wanted);
            assert forall|k: int| 0 <= k < self@.items.len() implies items::shows(
                #[trigger] self@.items[k],
                self@.catalog[k],
            ) by {
                assert(items::shows(start.items[k], start.catalog[k]));
            }
        }
        self.edit();
    }

    /// Selects all tasks.
    pub fn select_all(&mut self)
        requires
            model::app_wf(old(self)@),
        ensures
            final(self)@ == old(self)@.select_every(true),
            model::app_wf(final(self)@),
    {
        self.select_every(true);
    }

    /// Selects no task.
    pub fn clear_selection(&mut self)
        requires
            model::app_wf(old(self)@),
        ensures
            final(self)@ == old(self)@.select_every(false),
            model::app_wf(final(self)@),
    {
        self.select_every(false);
    }

    /// Switches the `dry_run` flag.
    pub fn toggle_dry_run(&mut self)
        requires
            model::app_wf(old(self)@),
        ensures
            final(self)@ == old(self)@.toggle_dry_run(),
            model::app_wf(final(self)@),
    {
        if self.screen == Screen::Select {
            self.options.dry_run = !self.options.dry_run;
            self.edit();
        }
    }

    /// Switches the `verbose` flag.
    pub fn toggle_verbose(&mut self)
        requires
            model::app_wf(old(self)@),
        ensures
            final(self)@ == old(self)@.toggle_verbose(),
            model::app_wf(final(self)@),
    {
        if self.screen == Screen::Select {
            self.options.verbose = !self.options.verbose;
            self.edit();
        }
    }

    /// Switches the `brew_cleanup` flag.
    pub fn toggle_brew_cleanup(&mut self)
        requires
            model::app_wf(old(self)@),
        ensures
            final(self)@ == old(self)@.toggle_brew_cleanup(),
            model::app_wf(final(self)@),
    {
        if self.screen == Screen::Select {
            self.options.brew_cleanup = !self.options.brew_cleanup;
            self.edit();
        }
    }

    /// Switches the `npm_audit` flag.
    pub fn toggle_npm_audit(&mut self)
        requires
            model::app_wf(old(self)@),
        ensures
            final(self)@ == old(self)@.toggle_npm_audit(),
            model::app_wf(final(self)@),
    {
        if self.screen == Screen::Select {
            self.options.npm_audit = !self.options.npm_audit;
            self.edit();
        }
    }

    fn apply_profile(&mut self, position: usize)
        requires
            model::parts_fit(old(self)@),
            position < old(self)@.profiles().len(),
        ensures
            final(self)@ == old(self)@.with_profile(position as nat),
            model::app_wf(final(self)@),
    {
        proof {
            model::lemma_with_profile_fits(self@, position as nat);
        }
        let list = list_profiles(&self.custom);
        let profile = &list[position];
        let ghost start = self@;
        let ghost wanted = model::with_selection(start.items, profile@.selected_tasks);
        let mut i: usize = 0;
        while i < self.tasks.len()
            invariant
                i <= self.tasks.len(),
                self.tasks.len() == start.items.len(),
                wanted == model::with_selection(start.items, profile@.selected_tasks),
                self@ == (AppModel { items: self@.items, ..start }),
                self@.items =~= wanted.take(i as int) + start.items.skip(i as int),
            decreases self.tasks.len() - i,
        {
            let ghost before = self@;
            let selected = contains_text(&profile.selected_tasks, self.tasks[i].id.as_str());
            assert(before.items[i as int] == start.items[i as int]);
            self.tasks[i].selected = selected;
            assert(self@.items =~= before.items.update(i as int, wanted[i as int]));
            i += 1;
        }
        assert(self@.items =~= wanted);
        self.active = position;
        self.options = profile.options;
        self.dirty = true;
        self.settle();
    }

    /// Switches to the next profile.
    pub fn cycle_profile_next(&mut self)
        requires
            model::app_wf(old(self)@),
        ensures
            final(self)@ == old(self)@.cycle_profile_next(),
            model::app_wf(final(self)@),
    {
        if self.screen != Screen::Select {
            return;
        }
        let count: usize = list_profiles(&self.custom).len();
        let next: usize = if self.active + 1 < count {
            self.active + 1
        } else {
            0
        };
        self.apply_profile(next);
    }

    /// Switches to the previous profile.
    pub fn cycle_profile_previous(&mut self)
        requires
            model::app_wf(old(self)@),
        ensures
            final(self)@ == old(self)@.cycle_profile_previous(),
            model::app_wf(final(self)@),
    {
        if self.screen != Screen::Select {
            return;
        }
        let count: usize = list_profiles(&self.custom).len();
        let previous: usize = if self.active > 0 {
            self.active - 1
        } else {
            count - 1
        };
        self.apply_profile(previous);
    }

    /// Switches to the next scope.
    pub fn cycle_scope_filter(&mut self)
        requires
            model::app_wf(old(self)@),
        ensures
            final(self)@ == old(self)@.cycle_scope_filter(),
            model::app_wf(final(self)@),
    {
        self.scope = self.scope.next();
        proof {
            model::lemma_settled_fits(self@);
        }
        self.settle();
    }

    /// Limits the list to the category of the task under the cursor, or lifts
    /// that limit.
    pub fn toggle_selected_category_filter(&mut self)
        requires
            model::app_wf(old(self)@),
        ensures
            final(self)@ == old(self)@.toggle_selected_category_filter(),
            model::app_wf(final(self)@),
    {
        let category = match &self.category_filter {
            Some(_) => None,
            None => match self.selected_visible_task() {
                Some(item) => Some(item.category.clone()),
                None => None,
            },
        };
        self.category_filter = category;
        proof {
            model::lemma_settled_fits(self@);
        }
        self.settle();
    }

    /// Limits the list to the first tag of the task under the cursor, or lifts
    /// that limit.
    pub fn toggle_selected_tag_filter(&mut self) -> (res: Result<(), Failure>)
        requires
            model::app_wf(old(self)@),
        ensures
            (final(self)@, unit_result(res)) == old(self)@.toggle_selected_tag_filter(),
            model::app_wf(final(self)@),
    {
        let tag = match &self.tag_filter {
            Some(_) => None,
            None => match self.selected_visible_task() {
                Some(item) => {
                    if item.tags.len() == 0 {
                        return Err(refuse("selected task has no tags"));
                    }
                    Some(item.tags[0].clone())
                },
                None => {
                    return Err(refuse("selected task has no tags"));
                },
            },
        };
        self.tag_filter = tag;
        proof {
            model::lemma_settled_fits(self@);
        }
        self.settle();
        Ok(())
    }

    /// Lifts all limits of the list.
    pub fn clear_filters(&mut self)
        requires
            model::app_wf(old(self)@),
        ensures
            final(self)@ == old(self)@.clear_filters(),
            model::app_wf(final(self)@),
    {
        self.scope = ScopeFilter::All;
        self.category_filter = None;
        self.tag_filter = None;
        proof {
            model::lemma_settled_fits(self@);
        }
        self.settle();
    }

    /// The filters in words.
    pub fn filter_summary(&self) -> (res: String)
        ensures
            res@ == self@.filter_summary(),
    {
        let mut res = self.scope.label().to_owned();
        match &self.category_filter {
            Some(category) => {
                res.append(concat2(", category ", category.as_str()).as_str());
            },
            None => {},
        }
        match &self.tag_filter {
            Some(tag) => {
                res.append(concat2(", tag ", tag.as_str()).as_str());
            },
            None => {},
        }
        assert(res@ =~= self@.filter_summary());
        res
    }
}

impl AppState {
    fn reset_states(&mut self)
        ensures
            final(self)@ == (AppModel {
                items: model::all_pending(old(self)@.items),
                ..old(self)@
            }),
    {
        let ghost start = self@;
        let ghost wanted = model::all_pending(start.items);
        let mut i: usize = 0;
        while i < self.tasks.len()
            invariant
                i <= self.tasks.len(),
                self.tasks.len() == start.items.len(),
                wanted == model::all_pending(start.items),
                self@ == (AppModel { items: self@.items, ..start }),
                self@.items =~= wanted.take(i as int) + start.items.skip(i as int),
            decreases self.tasks.len() - i,
        {
            let ghost before = self@;
            assert(before.items[i as int] == start.items[i as int]);
            self.tasks[i].state = TaskState::Pending;
            assert(self@.items =~= before.items.update(i as int, wanted[i as int]));
            i += 1;
        }
        assert(self@.items =~= wanted);
    }

    fn begin_run(&mut self)
        requires
            model::app_wf(old(self)@),
        ensures
            final(self)@ == old(self)@.begin_run(),
            model::app_wf(final(self)@),
    {
        proof {
            model::lemma_begin_run_fits(self@);
        }
        self.logs.clear();
        assert(line_texts(self.logs@) =~= Seq::empty());
        self.summary = None;
        self.pending_plan = None;
        self.screen = Screen::Running;
        self.status_message = Some("Running selected tasks...".to_owned());
        self.reset_states();
        assert(self@ =~= old(self)@.begin_run());
    }

    fn launch(&mut self, ids: &Vec<String>) -> (res: Result<Option<ExecutionPlan>, Failure>)
        requires
            model::app_wf(old(self)@),
        ensures
            (final(self)@, launch_result(res)) == old(self)@.launch(ids.deep_view()),
            model::app_wf(final(self)@),
    {
        proof {
            model::lemma_launch_fits(self@, ids.deep_view());
        }
        let plan = match self.catalog.plan(false, ids) {
            Ok(plan) => plan,
            Err(error) => {
                let message = error.message();
                return Err(refuse(message.as_str()));
            },
        };
        if has_dangerous_task(&plan) {
            self.pending_plan = Some(plan);
            self.screen = Screen::ConfirmDangerous;
            self.status_message = Some(
                "Dangerous tasks selected. Press y to continue or n to cancel.".to_owned(),
            );
            return Ok(None);
        }
        self.begin_run();
        Ok(Some(plan))
    }

    /// Starts the selected tasks: gives the plan to run, or nothing where it
    /// holds dangerous tasks and has to be confirmed first.
    pub fn prepare_run(&mut self) -> (res: Result<Option<ExecutionPlan>, Failure>)
        requires
            model::app_wf(old(self)@),
        ensures
            (final(self)@, launch_result(res)) == old(self)@.prepare_run(),
            model::app_wf(final(self)@),
    {
        self.status_message = None;
        let ids = self.find_selected_ids();
        if ids.len() == 0 {
            return Err(refuse("select at least one task"));
        }
        self.launch(&ids)
    }

    /// Starts the tasks that failed in the latest run.
    pub fn rerun_failed(&mut self) -> (res: Result<Option<ExecutionPlan>, Failure>)
        requires
            model::app_wf(old(self)@),
        ensures
            (final(self)@, launch_result(res)) == old(self)@.rerun_failed(),
            model::app_wf(final(self)@),
    {
        self.status_message = None;
        let ids = match &self.summary {
            Some(summary) => find_failed_ids(summary),
            None => {
                let none: Vec<String> = Vec::new();
                assert(none.deep_view() =~= Seq::empty());
                none
            },
        };
        if ids.len() == 0 {
            return Err(refuse("no failed tasks to rerun"));
        }
        self.launch(&ids)
    }

    /// Starts the tasks of the profile that was run last.
    pub fn rerun_last_profile(&mut self) -> (res: Result<Option<ExecutionPlan>, Failure>)
        requires
            model::app_wf(old(self)@),
        ensures
            (final(self)@, launch_result(res)) == old(self)@.rerun_last_profile(),
            model::app_wf(final(self)@),
    {
        self.status_message = None;
        let position: usize = match &self.last_profile_id {
            None => {
                return Err(refuse("no profile has been run yet"));
            },
            Some(id) => match profile_position(&list_profiles(&self.custom), id.as_str()) {
                None => {
                    return Err(refuse(concat2("unknown profile ", id.as_str()).as_str()));
                },
                Some(i) => i,
            },
        };
        self.apply_profile(position);
        self.prepare_run()
    }

    /// Starts the plan that awaits confirmation.
    pub fn confirm_run(&mut self) -> (res: Option<ExecutionPlan>)
        requires
            model::app_wf(old(self)@),
        ensures
            (final(self)@, res.deep_view()) == old(self)@.confirm_run(),
            model::app_wf(final(self)@),
    {
        if self.screen != Screen::ConfirmDangerous {
            return None;
        }
        let plan = match &self.pending_plan {
            Some(plan) => plan.clone(),
            None => {
                return None;
            },
        };
        self.begin_run();
        Some(plan)
    }

    /// Drops the plan that awaits confirmation.
    pub fn cancel_confirmation(&mut self)
        requires
            model::app_wf(old(self)@),
        ensures
            final(self)@ == old(self)@.cancel_confirmation(),
            model::app_wf(final(self)@),
    {
        if self.screen == Screen::ConfirmDangerous {
            self.pending_plan = None;
            self.screen = Screen::Select;
            self.status_message = Some("Run cancelled.".to_owned());
        }
    }

    /// Goes back from a summary to the selection.
    pub fn reset_after_summary(&mut self)
        requires
            model::app_wf(old(self)@),
        ensures
            final(self)@ == old(self)@.reset_after_summary(),
            model::app_wf(final(self)@),
    {
        proof {
            model::lemma_items_fit(self@, model::all_pending(self@.items));
        }
        self.screen = Screen::Select;
        self.summary = None;
        self.status_message = None;
        self.logs.clear();
        assert(line_texts(self.logs@) =~= Seq::empty());
        self.reset_states();
        assert(self@ =~= old(self)@.reset_after_summary());
    }

    fn set_task_state(&mut self, task_id: &str, state: TaskState)
        requires
            model::app_wf(old(self)@),
        ensures
            final(self)@ == (AppModel {
                items: model::with_state(old(self)@.items, task_id@, state),
                ..old(self)@
            }),
            model::app_wf(final(self)@),
    {
        let ghost start = self@;
        let ghost wanted = model::with_state(start.items, task_id@, state);
        proof {
            model::lemma_items_fit(start, wanted);
        }
        let mut i: usize = 0;
        while i < self.tasks.len()
            invariant
                i <= self.tasks.len(),
                self@ == start,
                start == old(self)@,
                model::app_wf(start),
                model::app_wf(AppModel { items: wanted, ..start }),
                wanted == model::with_state(start.items, task_id@, state),
                forall|k: int| 0 <= k < i ==> (#[trigger] start.items[k]).id != task_id@,
            decreases self.tasks.len() - i,
        {
            if text_eq(self.tasks[i].id.as_str(), task_id) {
                self.tasks[i].state = state;
                proof {
                    assert(start.items[i as int].id == task_id@);
                    assert forall|k: int| 0 <= k < wanted.len() && k != i implies wanted[k]
                        == start.items[k] by {
                        if start.items[k].id == task_id@ {
                            model::lemma_item_ids_distinct(start, i as int, k);
                        }
                    }
                    assert(self@.items =~= start.items.update(i as int, wanted[i as int]));
                    assert(self@.items =~= wanted);
                }
                return;
            }
            i += 1;
        }
        assert(wanted =~= start.items);
    }

    fn push_log(&mut self, line: String)
        requires
            model::app_wf(old(self)@),
        ensures
            final(self)@ == old(self)@.log(line@),
            model::app_wf(final(self)@),
    {
        let ghost content = line@;
        let ghost longer = self@.logs.push(content);
        self.logs.push_back(line);
        assert(self@.logs =~= longer);
        while self.logs.len() > MAX_LOG_LINES
            invariant
                self@ == (AppModel { logs: self@.logs, ..old(self)@ }),
                self@.logs.len() <= longer.len(),
                longer.len() <= MAX_LOG_LINES ==> self@.logs == longer,
                longer.len() > MAX_LOG_LINES ==> self@.logs.len() >= MAX_LOG_LINES,
                self@.logs =~= longer.skip(longer.len() - self@.logs.len()),
            decreases self.logs.len(),
        {
            let ghost before = self@.logs;
            let _ = self.logs.pop_front();
            assert(self@.logs =~= before.skip(1));
        }
        assert(self@.logs =~= model::capped(longer));
    }

    /// Takes note of an event of the current run.
    pub fn handle_runner_event(&mut self, event: RunnerEvent)
        requires
            model::app_wf(old(self)@),
        ensures
            final(self)@ == old(self)@.handle_runner_event(event@),
            model::app_wf(final(self)@),
    {
        match event {
            RunnerEvent::TaskStarted { task_id, label } => {
                self.set_task_state(task_id.as_str(), TaskState::Running);
                self.push_log(concat2("==> ", label.as_str()));
            },
            RunnerEvent::OutputLine { task_id, stream, line } => {
                let prefix = match stream {
                    StreamKind::Stdout => "out",
                    StreamKind::Stderr => "err",
                };
                let mut text = concat3("[", task_id.as_str(), ":");
                text.append(prefix);
                text.append("] ");
                text.append(line.as_str());
                self.push_log(text);
            },
            RunnerEvent::TaskFinished { task_id, label, status } => {
                self.set_task_state(task_id.as_str(), TaskState::from_outcome(status));
                self.push_log(concat3(label.as_str(), " finished: ", status.label()));
            },
        }
    }

    /// Shows how the current run ended.
    pub fn finish_run(&mut self, result: Result<RunSummary, Failure>)
        requires
            model::app_wf(old(self)@),
        ensures
            final(self)@ == old(self)@.finish_run(summary_result(result)),
            model::app_wf(final(self)@),
    {
        match result {
            Ok(summary) => {
                self.screen = Screen::Summary;
                self.status_message = Some("Run complete.".to_owned());
                self.summary = Some(summary);
            },
            Err(failure) => {
                let text = failure.full_message();
                self.screen = Screen::Summary;
                self.status_message = Some(concat2("Run failed: ", text.as_str()));
                self.summary = None;
                self.push_log(concat2("fatal: ", text.as_str()));
            },
        }
    }

    /// Remembers a run that is over and shows how it ended. Only a run with a
    /// summary enters the history.
    pub fn record_run(&mut self, run: CompletedRun)
        requires
            model::app_wf(old(self)@),
        ensures
            final(self)@ == old(self)@.record_run(run@),
            model::app_wf(final(self)@),
    {
        self.last_profile_id = Some(run.profile_id.clone());
        match run.result {
            Ok(summary) => {
                let entry = HistoryEntry::from_run_summary(
                    run.started_at_unix_secs,
                    run.duration_ms,
                    run.profile_id,
                    run.selected_tasks,
                    &summary,
                );
                let ghost content = entry@;
                let mut history = clone_history(&self.history);
                history.push(entry);
                assert(history.deep_view() =~= old(self)@.history.push(content));
                let mut kept = PersistedState { history, ..PersistedState::default() };
                kept.trim_history();
                self.history = kept.history;
                self.dirty = true;
                proof {
                    persistence::trimming_keeps_the_latest_runs(
                        old(self)@.history.push(content),
                    );
                }
                self.finish_run(Ok(summary));
            },
            Err(reason) => {
                self.finish_run(Err(refuse(reason.as_str())));
            },
        }
    }

    /// Takes note of what the preflight check of a task found, or why it could
    /// not be made.
    pub fn apply_preflight(&mut self, task_id: &str, report: &Result<PreflightReport, Failure>)
        requires
            model::app_wf(old(self)@),
        ensures
            final(self)@ == old(self)@.apply_preflight(task_id@, runner::report_result(*report)),
            model::app_wf(final(self)@),
    {
        let ghost start = self@;
        let ghost wanted = model::with_report(start.items, task_id@, runner::report_result(*report));
        proof {
            model::lemma_items_fit(start, wanted);
        }
        let mut i: usize = 0;
        while i < self.tasks.len()
            invariant
                i <= self.tasks.len(),
                self.tasks.len() == start.items.len(),
                wanted == model::with_report(
                    start.items,
                    task_id@,
                    runner::report_result(*report),
                ),
                self@ == (AppModel { items: self@.items, ..start }),
                self@.items =~= wanted.take(i as int) + start.items.skip(i as int),
            decreases self.tasks.len() - i,
        {
            let ghost before = self@;
            assert(before.items[i as int] == start.items[i as int]);
            if text_eq(self.tasks[i].id.as_str(), task_id) {
                let mut item = self.tasks[i].clone();
                item.inspect(report);
                self.tasks.set(i, item);
            }
            assert(self@.items =~= before.items.update(i as int, wanted[i as int]));
            i += 1;
        }
        assert(self@.items =~= wanted);
        proof {
            model::lemma_settled_fits(self@);
        }
        self.settle();
    }

    /// Shows a message in place of the usual hint.
    pub fn set_status_message(&mut self, message: String)
        requires
            model::app_wf(old(self)@),
        ensures
            final(self)@ == (AppModel { status: Some(message@), ..old(self)@ }),
            model::app_wf(final(self)@),
    {
        self.status_message = Some(message);
    }

    /// What there is to save.
    pub fn snapshot(&self) -> (res: PersistedState)
        requires
            model::app_wf(self@),
        ensures
            res@ == self@.snapshot(),
    {
        PersistedState {
            version: persistence::default_version(),
            active_profile_id: self.active_profile_id(),
            custom_profile: self.custom.clone(),
            history: clone_history(&self.history),
        }
    }

    /// There is nothing left to save.
    pub fn mark_clean(&mut self)
        requires
            model::app_wf(old(self)@),
        ensures
            final(self)@ == old(self)@.saved(Ok(())),
            model::app_wf(final(self)@),
    {
        self.dirty = false;
    }

    /// Takes note of how saving the snapshot went.
    pub fn note_saved(&mut self, result: Result<(), Failure>)
        requires
            model::app_wf(old(self)@),
        ensures
            final(self)@ == old(self)@.saved(
                match unit_result(result) {
                    Ok(()) => Ok(()),
                    Err(failure) => Err(failure.context),
                },
            ),
            model::app_wf(final(self)@),
    {
        match result {
            Ok(()) => {
                self.mark_clean();
            },
            Err(failure) => {
                let message = failure.message();
                self.set_status_message(concat2("State save failed: ", message.as_str()));
            },
        }
    }
}

/// A row of the task list: the name of a category, or the task at a position.
#[derive(Debug, PartialEq, Eq)]
pub enum TaskListEntry {
    Header(String),
    Task(usize),
}

impl View for TaskListEntry {
    type V = EntryModel;

    open spec fn view(&self) -> EntryModel {
        match self {
            TaskListEntry::Header(category) => EntryModel::Header(category@),
            TaskListEntry::Task(i) => EntryModel::Task(*i as nat),
        }
    }
}

impl DeepView for TaskListEntry {
    type V = EntryModel;

    open spec fn deep_view(&self) -> EntryModel {
        self.view()
    }
}

impl AppState {
    /// The dangerous tasks of the plan that awaits confirmation, each with its
    /// label and its warning.
    pub fn pending_danger_messages(&self) -> (res: Vec<(String, String)>)
        ensures
            res.deep_view() == (match self@.pending {
                Some(plan) => model::danger_messages(plan),
                None => Seq::empty(),
            }),
    {
        let mut res: Vec<(String, String)> = Vec::new();
        assert(res.deep_view() =~= Seq::empty());
        let plan = match &self.pending_plan {
            Some(plan) => plan,
            None => {
                return res;
            },
        };
        let tasks = &plan.tasks;
        let mut i: usize = 0;
        while i < tasks.len()
            invariant
                i <= tasks.len(),
                res.deep_view() == model::danger_messages(tasks.deep_view().take(i as int)),
            decreases tasks.len() - i,
        {
            proof {
                let longer = tasks.deep_view().take(i + 1);
                assert(longer.drop_last() =~= tasks.deep_view().take(i as int));
                assert(longer.last() == tasks@[i as int]@);
            }
            let task = &tasks[i];
            if task.dangerous {
                let message = match &task.danger_message {
                    Some(message) => message.clone(),
                    None => "Marked as dangerous.".to_owned(),
                };
                let ghost before = res.deep_view();
                let ghost content = message@;
                res.push((task.label.clone(), message));
                assert(res.deep_view() =~= before.push((task@.label, content)));
            }
            i += 1;
        }
        assert(tasks.deep_view().take(tasks.len() as int) =~= tasks.deep_view());
        res
    }

    fn find_categories(&self) -> (res: Vec<String>)
        ensures
            res.deep_view() == self@.categories(self@.items.len()),
    {
        let mut res: Vec<String> = Vec::new();
        assert(res.deep_view() =~= Seq::empty());
        let mut i: usize = 0;
        while i < self.tasks.len()
            invariant
                i <= self.tasks.len(),
                res.deep_view() == self@.categories(i as nat),
            decreases self.tasks.len() - i,
        {
            if self.is_visible(i) && !contains_text(&res, self.tasks[i].category.as_str()) {
                let ghost before = res.deep_view();
                res.push(self.tasks[i].category.clone());
                assert(res.deep_view() =~= before.push(self@.items[i as int].category));
            }
            i += 1;
        }
        res
    }

    fn push_rows(&self, rows: &mut Vec<TaskListEntry>, category: &str)
        ensures
            final(rows).deep_view() == old(rows).deep_view() + self@.rows_in(
                category@,
                self@.items.len(),
            ),
    {
        let ghost start = rows.deep_view();
        let mut i: usize = 0;
        assert(start + self@.rows_in(category@, 0) =~= start);
        while i < self.tasks.len()
            invariant
                i <= self.tasks.len(),
                rows.deep_view() == start + self@.rows_in(category@, i as nat),
            decreases self.tasks.len() - i,
        {
            let ghost before = rows.deep_view();
            if self.is_visible(i) && text_eq(self.tasks[i].category.as_str(), category) {
                rows.push(TaskListEntry::Task(i));
                assert(rows.deep_view() =~= before.push(EntryModel::Task(i as nat)));
            }
            assert(rows.deep_view() =~= start + self@.rows_in(category@, (i + 1) as nat));
            i += 1;
        }
    }

    /// The rows of the task list: the visible tasks under their categories.
    pub fn task_list_entries(&self) -> (res: Vec<TaskListEntry>)
        ensures
            res.deep_view() == self@.entries(),
    {
        let categories = self.find_categories();
        let ghost all = categories.deep_view();
        let mut res: Vec<TaskListEntry> = Vec::new();
        assert(res.deep_view() =~= Seq::empty());
        assert(all.take(0) =~= Seq::empty());
        let mut i: usize = 0;
        while i < categories.len()
            invariant
                i <= categories.len(),
                all == categories.deep_view(),
                res.deep_view() == self@.rows(all.take(i as int)),
            decreases categories.len() - i,
        {
            proof {
                let longer = all.take(i + 1);
                assert(longer.drop_last() =~= all.take(i as int));
                assert(longer.last() == categories@[i as int]@);
            }
            let ghost before = res.deep_view();
            res.push(TaskListEntry::Header(categories[i].clone()));
            assert(res.deep_view() =~= before.push(EntryModel::Header(all[i as int])));
            self.push_rows(&mut res, categories[i].as_str());
            i += 1;
        }
        assert(all.take(all.len() as int) =~= all);
        res
    }

    /// The row of the task list that shows the task under the cursor.
    pub fn selected_list_index(&self) -> (res: Option<usize>)
        ensures
            match res {
                Some(row) => self@.cursor_row(0) == Some(row as nat),
                None => self@.cursor_row(0) is None,
            },
    {
        let entries = self.task_list_entries();
        let mut row: usize = 0;
        while row < entries.len()
            invariant
                row <= entries.len(),
                entries.deep_view() == self@.entries(),
                self@.cursor_row(0) == self@.cursor_row(row as nat),
            decreases entries.len() - row,
        {
            let here = match &entries[row] {
                TaskListEntry::Task(i) => *i == self.selected_index,
                TaskListEntry::Header(_) => false,
            };
            assert(entries.deep_view()[row as int] == entries@[row as int]@);
            if here {
                return Some(row);
            }
            row += 1;
        }
        None
    }
}

/// A run that is over.
#[derive(Debug, PartialEq, Eq)]
pub struct CompletedRun {
    pub started_at_unix_secs: u64,
    pub duration_ms: u64,
    pub profile_id: String,
    pub selected_tasks: Vec<String>,
    pub result: Result<RunSummary, String>,
}

impl View for CompletedRun {
    type V = CompletedModel;

    open spec fn view(&self) -> CompletedModel {
        CompletedModel {
            started_at_unix_secs: self.started_at_unix_secs,
            duration_ms: self.duration_ms,
            profile_id: self.profile_id@,
            selected_tasks: self.selected_tasks.deep_view(),
            result: match self.result {
                Ok(summary) => Ok(summary@),
                Err(reason) => Err(reason@),
            },
        }
    }
}

/// How a run ended, as content.
pub open spec fn summary_result(res: Result<RunSummary, Failure>) -> Result<
    SummaryModel,
    FailureModel,
> {
    match res {
        Ok(summary) => Ok(summary@),
        Err(failure) => Err(failure@),
    }
}

/// What starting a run gave, as content.
pub open spec fn launch_result(res: Result<Option<ExecutionPlan>, Failure>) -> LaunchModel {
    match res {
        Ok(plan) => Ok(plan.deep_view()),
        Err(failure) => Err(failure@),
    }
}

fn has_dangerous_task(plan: &ExecutionPlan) -> (res: bool)
    ensures
        res == model::is_dangerous(plan@),
{
    let mut i: usize = 0;
    while i < plan.tasks.len()
        invariant
            i <= plan.tasks.len(),
            forall|k: int| 0 <= k < i ==> !(#[trigger] plan@[k]).dangerous,
        decreases plan.tasks.len() - i,
    {
        if plan.tasks[i].dangerous {
            assert(plan@[i as int].dangerous);
            return true;
        }
        i += 1;
    }
    false
}

/// The ids of the tasks that failed.
fn find_failed_ids(summary: &RunSummary) -> (res: Vec<String>)
    ensures
        res.deep_view() == model::failed_ids(summary@.outcomes),
{
    let outcomes = &summary.outcomes;
    let mut res: Vec<String> = Vec::new();
    assert(res.deep_view() =~= Seq::empty());
    let mut i: usize = 0;
    while i < outcomes.len()
        invariant
            i <= outcomes.len(),
            res.deep_view() == model::failed_ids(outcomes.deep_view().take(i as int)),
        decreases outcomes.len() - i,
    {
        proof {
            let longer = outcomes.deep_view().take(i + 1);
            assert(longer.drop_last() =~= outcomes.deep_view().take(i as int));
            assert(longer.last() == outcomes@[i as int]@);
        }
        if outcomes[i].status == OutcomeStatus::Fail {
            let ghost before = res.deep_view();
            res.push(outcomes[i].id.clone());
            assert(res.deep_view() =~= before.push(outcomes@[i as int]@.id));
        }
        i += 1;
    }
    assert(outcomes.deep_view().take(outcomes.len() as int) =~= outcomes.deep_view());
    res
}

/// The outcome of an operation without a value, as content.
pub open spec fn unit_result(res: Result<(), Failure>) -> Result<(), FailureModel> {
    match res {
        Ok(()) => Ok(()),
        Err(failure) => Err(failure@),
    }
}

fn refuse(context: &str) -> (res: Failure)
    ensures
        res@ == model::refusal(context@),
{
    Failure { context: context.to_owned(), cause: None }
}

} // verus!

//! Saved defaults and recent run history.

use crate::failure::{Failure, FailureModel};
use crate::paths;
use crate::paths::{join_path, parent_path, PathStyle};
use crate::profiles::CUSTOM_PROFILE_ID;
use crate::runner;
use crate::runner::{OutcomeModel, OutcomeStatus, RunOptions, RunSummary, SummaryModel};
use crate::text::{clone_texts, concat2, concat3, Text};
use vstd::prelude::*;

verus! {

/// How many runs are remembered.
pub const MAX_HISTORY_ENTRIES: usize = 20;

/// What is kept between sessions.
#[derive(Debug, PartialEq, Eq)]
pub struct PersistedState {
    pub version: u32,
    pub active_profile_id: String,
    pub custom_profile: PersistedProfile,
    /// The latest run last.
    pub history: Vec<HistoryEntry>,
}

/// The user's own selection and flags.
#[derive(Debug, PartialEq, Eq)]
pub struct PersistedProfile {
    pub selected_tasks: Vec<String>,
    pub options: RunOptions,
}

/// One run that took place.
#[derive(Debug, PartialEq, Eq)]
pub struct HistoryEntry {
    pub started_at_unix_secs: u64,
    pub duration_ms: u64,
    pub profile_id: String,
    pub selected_tasks: Vec<String>,
    pub summary: HistorySummary,
}

/// How a run that took place ended.
#[derive(Debug, PartialEq, Eq)]
pub struct HistorySummary {
    pub ok_count: usize,
    pub warn_count: usize,
    pub fail_count: usize,
    pub outcome_labels: Vec<String>,
}

/// The content of a [`PersistedState`].
#[verifier::ext_equal]
pub struct PersistedModel {
    pub version: u32,
    pub active_profile_id: Text,
    pub custom_profile: SelectionModel,
    pub history: Seq<HistoryModel>,
}

/// The content of a [`PersistedProfile`].
#[verifier::ext_equal]
pub struct SelectionModel {
    pub selected_tasks: Seq<Text>,
    pub options: RunOptions,
}

/// The content of a [`HistoryEntry`].
#[verifier::ext_equal]
pub struct HistoryModel {
    pub started_at_unix_secs: u64,
    pub duration_ms: u64,
    pub profile_id: Text,
    pub selected_tasks: Seq<Text>,
    pub summary: HistorySummaryModel,
}

/// The content of a [`HistorySummary`].
#[verifier::ext_equal]
pub struct HistorySummaryModel {
    pub ok_count: nat,
    pub warn_count: nat,
    pub fail_count: nat,
    pub outcome_labels: Seq<Text>,
}

impl View for PersistedProfile {
    type V = SelectionModel;

    open spec fn view(&self) -> SelectionModel {
        SelectionModel { selected_tasks: self.selected_tasks.deep_view(), options: self.options }
    }
}

impl View for HistorySummary {
    type V = HistorySummaryModel;

    open spec fn view(&self) -> HistorySummaryModel {
        HistorySummaryModel {
            ok_count: self.ok_count as nat,
            warn_count: self.warn_count as nat,
            fail_count: self.fail_count as nat,
            outcome_labels: self.outcome_labels.deep_view(),
        }
    }
}

impl View for HistoryEntry {
    type V = HistoryModel;

    open spec fn view(&self) -> HistoryModel {
        HistoryModel {
            started_at_unix_secs: self.started_at_unix_secs,
            duration_ms: self.duration_ms,
            profile_id: self.profile_id@,
            selected_tasks: self.selected_tasks.deep_view(),
            summary: self.summary@,
        }
    }
}

impl DeepView for HistoryEntry {
    type V = HistoryModel;

    open spec fn deep_view(&self) -> HistoryModel {
        self.view()
    }
}

impl View for PersistedState {
    type V = PersistedModel;

    open spec fn view(&self) -> PersistedModel {
        PersistedModel {
            version: self.version,
            active_profile_id: self.active_profile_id@,
            custom_profile: self.custom_profile@,
            history: self.history.deep_view(),
        }
    }
}

impl Clone for PersistedProfile {
    fn clone(&self) -> (res: Self)
        ensures
            res@ == self@,
    {
        PersistedProfile {
            selected_tasks: clone_texts(&self.selected_tasks),
            options: self.options,
        }
    }
}

impl Clone for HistorySummary {
    fn clone(&self) -> (res: Self)
        ensures
            res@ == self@,
    {
        HistorySummary {
            ok_count: self.ok_count,
            warn_count: self.warn_count,
            fail_count: self.fail_count,
            outcome_labels: clone_texts(&self.outcome_labels),
        }
    }
}

impl Clone for HistoryEntry {
    fn clone(&self) -> (res: Self)
        ensures
            res@ == self@,
    {
        HistoryEntry {
            started_at_unix_secs: self.started_at_unix_secs,
            duration_ms: self.duration_ms,
            profile_id: self.profile_id.clone(),
            selected_tasks: clone_texts(&self.selected_tasks),
            summary: self.summary.clone(),
        }
    }
}

/// A copy of a history.
pub fn clone_history(history: &Vec<HistoryEntry>) -> (res: Vec<HistoryEntry>)
    ensures
        res.deep_view() == history.deep_view(),
{
    let mut res: Vec<HistoryEntry> = Vec::new();
    let mut i: usize = 0;
    while i < history.len()
        invariant
            i <= history.len(),
            res.deep_view() =~= history.deep_view().take(i as int),
        decreases history.len() - i,
    {
        let ghost before = res.deep_view();
        let entry = history[i].clone();
        res.push(entry);
        assert(res.deep_view() =~= before.push(history.deep_view()[i as int]));
        i += 1;
    }
    assert(history.deep_view().take(history.len() as int) =~= history.deep_view());
    res
}

impl Clone for PersistedState {
    fn clone(&self) -> (res: Self)
        ensures
            res@ == self@,
    {
        PersistedState {
            version: self.version,
            active_profile_id: self.active_profile_id.clone(),
            custom_profile: self.custom_profile.clone(),
            history: clone_history(&self.history),
        }
    }
}

/// The version that saved states have.
pub fn default_version() -> (res: u32)
    ensures
        res == 1,
{
    1
}

/// The profile that is active where none was saved.
pub fn default_active_profile() -> (res: String)
    ensures
        res@ == CUSTOM_PROFILE_ID@,
{
    CUSTOM_PROFILE_ID.to_owned()
}

/// An empty selection with all flags off.
pub open spec fn empty_selection() -> SelectionModel {
    SelectionModel { selected_tasks: Seq::empty(), options: runner::no_options() }
}

/// The state where none was saved.
pub open spec fn initial_state() -> PersistedModel {
    PersistedModel {
        version: 1,
        active_profile_id: CUSTOM_PROFILE_ID@,
        custom_profile: empty_selection(),
        history: Seq::empty(),
    }
}

impl Default for PersistedProfile {
    fn default() -> (res: Self)
        ensures
            res@ == empty_selection(),
    {
        let res = PersistedProfile { selected_tasks: Vec::new(), options: RunOptions::default() };
        assert(res@ =~= empty_selection());
        res
    }
}

impl Default for PersistedState {
    fn default() -> (res: Self)
        ensures
            res@ == initial_state(),
    {
        let res = PersistedState {
            version: default_version(),
            active_profile_id: default_active_profile(),
            custom_profile: PersistedProfile::default(),
            history: Vec::new(),
        };
        assert(res@ =~= initial_state());
        res
    }
}

/// The latest entries of a history, as many as are remembered.
pub open spec fn trimmed(history: Seq<HistoryModel>) -> Seq<HistoryModel> {
    if history.len() > MAX_HISTORY_ENTRIES {
        history.skip(history.len() - MAX_HISTORY_ENTRIES)
    } else {
        history
    }
}

/// A state with its history trimmed.
pub open spec fn trimmed_state(state: PersistedModel) -> PersistedModel {
    PersistedModel { history: trimmed(state.history), ..state }
}

impl PersistedState {
    /// Forgets the oldest runs beyond [`MAX_HISTORY_ENTRIES`].
    pub fn trim_history(&mut self)
        ensures
            final(self)@ == trimmed_state(old(self)@),
    {
        if self.history.len() > MAX_HISTORY_ENTRIES {
            let keep_from: usize = self.history.len() - MAX_HISTORY_ENTRIES;
            let ghost all = self.history.deep_view();
            let kept = self.history.split_off(keep_from);
            assert(kept.deep_view() =~= all.skip(keep_from as int));
            self.history = kept;
        }
        assert(self@ =~= trimmed_state(old(self)@));
    }
}

/// An outcome as it stands in a history.
pub open spec fn outcome_label(outcome: OutcomeModel) -> Text {
    outcome.label + ":"@ + runner::status_label(outcome.status)
}

/// A run as it stands in a history.
pub open spec fn history_of(
    started_at_unix_secs: u64,
    duration_ms: u64,
    profile_id: Text,
    selected_tasks: Seq<Text>,
    summary: SummaryModel,
) -> HistoryModel {
    HistoryModel {
        started_at_unix_secs,
        duration_ms,
        profile_id,
        selected_tasks,
        summary: HistorySummaryModel {
            ok_count: summary.ok_count,
            warn_count: summary.warn_count,
            fail_count: summary.fail_count,
            outcome_labels: summary.outcomes.map_values(
                |outcome: OutcomeModel| outcome_label(outcome),
            ),
        },
    }
}

impl HistoryEntry {
    /// A run as it stands in a history.
    pub fn from_run_summary(
        started_at_unix_secs: u64,
        duration_ms: u64,
        profile_id: String,
        selected_tasks: Vec<String>,
        summary: &RunSummary,
    ) -> (res: Self)
        ensures
            res@ == history_of(
                started_at_unix_secs,
                duration_ms,
                profile_id@,
                selected_tasks.deep_view(),
                summary@,
            ),
    {
        let ghost wanted = summary@.outcomes.map_values(
            |outcome: OutcomeModel| outcome_label(outcome),
        );
        let mut outcome_labels: Vec<String> = Vec::new();
        let mut i: usize = 0;
        while i < summary.outcomes.len()
            invariant
                i <= summary.outcomes.len(),
                wanted == summary@.outcomes.map_values(
                    |outcome: OutcomeModel| outcome_label(outcome),
                ),
                outcome_labels.deep_view() =~= wanted.take(i as int),
            decreases summary.outcomes.len() - i,
        {
            let ghost before = outcome_labels.deep_view();
            let outcome = &summary.outcomes[i];
            outcome_labels.push(concat3(outcome.label.as_str(), ":", outcome.status.label()));
            assert(outcome_labels.deep_view() =~= before.push(wanted[i as int]));
            i += 1;
        }
        assert(wanted.take(wanted.len() as int) =~= wanted);
        HistoryEntry {
            started_at_unix_secs,
            duration_ms,
            profile_id,
            selected_tasks,
            summary: HistorySummary {
                ok_count: summary.ok_count,
                warn_count: summary.warn_count,
                fail_count: summary.fail_count,
                outcome_labels,
            },
        }
    }
}

impl HistorySummaryModel {
    /// The worst status that occurred.
    pub open spec fn overall_status(self) -> OutcomeStatus {
        if self.fail_count != 0 {
            OutcomeStatus::Fail
        } else if self.warn_count != 0 {
            OutcomeStatus::Warn
        } else {
            OutcomeStatus::Success
        }
    }
}

impl HistorySummary {
    /// The worst status that occurred.
    pub fn overall_status(&self) -> (res: OutcomeStatus)
        ensures
            res == self@.overall_status(),
    {
        if self.fail_count != 0 {
            OutcomeStatus::Fail
        } else if self.warn_count != 0 {
            OutcomeStatus::Warn
        } else {
            OutcomeStatus::Success
        }
    }
}

/// What was found where a state is stored.
#[derive(Debug, PartialEq, Eq)]
pub enum StoredState {
    Missing,
    /// There is a file, which could not be read for this reason.
    Unreadable(String),
    /// There is a file that does not hold a state for this reason.
    Unparsable(String),
    Parsed(PersistedState),
}

/// The content of a [`StoredState`].
#[verifier::ext_equal]
pub enum StoredModel {
    Missing,
    Unreadable(Text),
    Unparsable(Text),
    Parsed(PersistedModel),
}

impl View for StoredState {
    type V = StoredModel;

    open spec fn view(&self) -> StoredModel {
        match self {
            StoredState::Missing => StoredModel::Missing,
            StoredState::Unreadable(reason) => StoredModel::Unreadable(reason@),
            StoredState::Unparsable(reason) => StoredModel::Unparsable(reason@),
            StoredState::Parsed(state) => StoredModel::Parsed(state@),
        }
    }
}

/// What there is to write: the directory to create first, and the state.
#[derive(Debug, PartialEq, Eq)]
pub struct SavePlan {
    pub directory: String,
    pub state: PersistedState,
}

/// The content of a [`SavePlan`].
#[verifier::ext_equal]
pub struct SaveModel {
    pub directory: Text,
    pub state: PersistedModel,
}

impl View for SavePlan {
    type V = SaveModel;

    open spec fn view(&self) -> SaveModel {
        SaveModel { directory: self.directory@, state: self.state@ }
    }
}

/// The step of saving at which something went wrong.
#[derive(Debug, PartialEq, Eq)]
pub enum SaveStep {
    CreateDirectory,
    Serialize,
    Write,
}

/// The place where a state is stored.
#[derive(Debug, PartialEq, Eq)]
pub struct PersistenceStore {
    path: String,
}

impl View for PersistenceStore {
    type V = Text;

    closed spec fn view(&self) -> Text {
        self.path@
    }
}

impl Clone for PersistenceStore {
    fn clone(&self) -> (res: Self)
        ensures
            res@ == self@,
    {
        PersistenceStore { path: self.path.clone() }
    }
}

/// The state that a store holds, or why there is none.
pub open spec fn loaded(path: Text, stored: StoredModel) -> Result<PersistedModel, FailureModel> {
    match stored {
        StoredModel::Missing => Ok(initial_state()),
        StoredModel::Unreadable(reason) => Err(
            FailureModel { context: "failed to read "@ + path, cause: Some(reason) },
        ),
        StoredModel::Unparsable(reason) => Err(
            FailureModel { context: "failed to parse "@ + path, cause: Some(reason) },
        ),
        StoredModel::Parsed(state) => Ok(trimmed_state(state)),
    }
}

/// What there is to write for a state at a path, or why it cannot be saved.
pub open spec fn saved(style: PathStyle, path: Text, state: PersistedModel) -> Result<
    SaveModel,
    FailureModel,
> {
    match paths::parent_of(style, path) {
        None => Err(FailureModel { context: path + " has no parent directory"@, cause: None }),
        Some(directory) => Ok(SaveModel { directory, state: trimmed_state(state) }),
    }
}

/// The failure of a step of saving.
pub open spec fn save_failure_of(
    path: Text,
    directory: Text,
    step: SaveStep,
    reason: Text,
) -> FailureModel {
    FailureModel {
        context: match step {
            SaveStep::CreateDirectory => "failed to create "@ + directory,
            SaveStep::Serialize => "failed to serialize state"@,
            SaveStep::Write => "failed to write "@ + path,
        },
        cause: Some(reason),
    }
}

/// A loaded state, or why there is none, as content.
pub open spec fn load_result(res: Result<PersistedState, Failure>) -> Result<
    PersistedModel,
    FailureModel,
> {
    match res {
        Ok(state) => Ok(state@),
        Err(failure) => Err(failure@),
    }
}

/// What there is to write, or why a state cannot be saved, as content.
pub open spec fn save_result(res: Result<SavePlan, Failure>) -> Result<SaveModel, FailureModel> {
    match res {
        Ok(plan) => Ok(plan@),
        Err(failure) => Err(failure@),
    }
}

/// Where the state is stored below a configuration directory.
pub open spec fn state_path(style: PathStyle, config_dir: Option<Text>) -> Result<
    Text,
    FailureModel,
> {
    match config_dir {
        Some(dir) => Ok(paths::joined_path(style, dir, "state.toml"@)),
        None => Err(
            FailureModel {
                context: "could not determine a config directory for upgrade-cockpit"@,
                cause: None,
            },
        ),
    }
}

/// Where the state is stored below a configuration directory.
pub fn state_path_in(style: PathStyle, config_dir: Option<String>) -> (res: Result<
    String,
    Failure,
>)
    ensures
        runner::text_result(res) == state_path(style, config_dir.deep_view()),
{
    match config_dir {
        Some(dir) => Ok(join_path(style, dir.as_str(), "state.toml")),
        None => Err(
            Failure {
                context: "could not determine a config directory for upgrade-cockpit".to_owned(),
                cause: None,
            },
        ),
    }
}

/// `part` occurs in `text`.
pub open spec fn occurs_in(part: Text, text: Text) -> bool {
    exists|i: int|
        0 <= i && i + part.len() <= text.len() && part == #[trigger] text.subrange(
            i,
            i + part.len(),
        )
}

/// Calls `directories::ProjectDirs::from` and then `ProjectDirs::config_dir`:
/// the configuration directory of the application for the current user, or
/// nothing where no home directory is known. The name of the application, which
/// every platform takes as it is, occurs in the directory. Which directory it is
/// depends otherwise on the platform and the environment, so no more is claimed
/// of it.
#[verifier::external_body]
fn config_dir(qualifier: &str, organization: &str, application: &str) -> (res: Option<String>)
    requires
        qualifier@ == "com"@,
        organization@ == "mpalmer"@,
        application@ == "upgrade-cockpit"@,
    ensures
        res matches Some(dir) ==> occurs_in(application@, dir@),
{
    directories::ProjectDirs::from(qualifier, organization, application).map(
        |dirs| dirs.config_dir().to_string_lossy().into_owned(),
    )
}

/// The directory, if there is one, can be that of the application.
pub open spec fn is_own_directory(dir: Option<Text>) -> bool {
    dir matches Some(path) ==> occurs_in("upgrade-cockpit"@, path)
}

impl PersistenceStore {
    /// The store at `path`.
    pub fn new(path: String) -> (res: Self)
        ensures
            res@ == path@,
    {
        PersistenceStore { path }
    }

    /// The state file in the user's configuration directory for the application.
    /// Whatever directory that is, the file is `state.toml` in it; where there is
    /// none, that is the failure.
    pub fn default_path(style: PathStyle) -> (res: Result<String, Failure>)
        ensures
            exists|dir: Option<Text>| #[trigger]
                is_own_directory(dir) && runner::text_result(res) == state_path(
                    style,
                    dir,
                ),
    {
        let dir = config_dir("com", "mpalmer", "upgrade-cockpit");
        let ghost given = dir.deep_view();
        assert(is_own_directory(given));
        state_path_in(style, dir)
    }

    /// Where the state is stored.
    pub fn path(&self) -> (res: &str)
        ensures
            res@ == self@,
    {
        self.path.as_str()
    }

    /// The state that was stored: the initial one where there is none yet, and
    /// one with its history trimmed otherwise.
    pub fn load(&self, stored: StoredState) -> (res: Result<PersistedState, Failure>)
        ensures
            load_result(res) == loaded(self@, stored@),
    {
        match stored {
            StoredState::Missing => Ok(PersistedState::default()),
            StoredState::Unreadable(reason) => Err(
                Failure {
                    context: concat2("failed to read ", self.path.as_str()),
                    cause: Some(reason),
                },
            ),
            StoredState::Unparsable(reason) => Err(
                Failure {
                    context: concat2("failed to parse ", self.path.as_str()),
                    cause: Some(reason),
                },
            ),
            StoredState::Parsed(parsed) => {
                let mut state = parsed;
                state.trim_history();
                Ok(state)
            },
        }
    }

    /// The directory of the store: that of its path.
    pub fn directory(&self, style: PathStyle) -> (res: Option<String>)
        ensures
            res.deep_view() == paths::parent_of(style, self@),
    {
        parent_path(style, self.path.as_str())
    }

    /// What there is to write for `state`: the directory of the store, to be
    /// created first, and the state with its history trimmed.
    pub fn save(&self, style: PathStyle, state: &PersistedState) -> (res: Result<
        SavePlan,
        Failure,
    >)
        ensures
            save_result(res) == saved(style, self@, state@),
    {
        match self.directory(style) {
            None => Err(
                Failure {
                    context: concat2(self.path.as_str(), " has no parent directory"),
                    cause: None,
                },
            ),
            Some(directory) => {
                let mut state = state.clone();
                state.trim_history();
                Ok(SavePlan { directory, state })
            },
        }
    }

    /// The failure of a step of saving.
    pub fn save_failure(&self, directory: &str, step: SaveStep, reason: String) -> (res: Failure)
        ensures
            res@ == save_failure_of(self@, directory@, step, reason@),
    {
        let context = match step {
            SaveStep::CreateDirectory => concat2("failed to create ", directory),
            SaveStep::Serialize => "failed to serialize state".to_owned(),
            SaveStep::Write => concat2("failed to write ", self.path.as_str()),
        };
        Failure { context, cause: Some(reason) }
    }
}

/// Trimming keeps the latest entries in their order, at most
/// [`MAX_HISTORY_ENTRIES`] of them and all where there are no more, and trimming
/// again changes nothing.
pub proof fn trimming_keeps_the_latest_runs(history: Seq<HistoryModel>)
    ensures
        trimmed(history).len() == if history.len() <= MAX_HISTORY_ENTRIES {
            history.len()
        } else {
            MAX_HISTORY_ENTRIES as nat
        },
        trimmed(history).is_suffix_of(history),
        trimmed(trimmed(history)) == trimmed(history),
{
}

/// A state can be saved wherever the path of the store has a directory. What was
/// written is read back as that state with its history trimmed, and saving what
/// was read writes the same again.
pub proof fn a_saved_state_is_loaded_again(style: PathStyle, path: Text, state: PersistedModel)
    ensures
        ({
            let plan = saved(style, path, state);
            &&& plan is Ok <==> paths::parent_of(style, path) is Some
            &&& plan is Ok ==> loaded(path, StoredModel::Parsed(plan->Ok_0.state)) == Ok::<
                PersistedModel,
                FailureModel,
            >(trimmed_state(state))
            &&& saved(style, path, trimmed_state(state)) == plan
        }),
{
    trimming_keeps_the_latest_runs(state.history);
}

/// The entry for a run has one label for each outcome, and its overall status is
/// the worst status among them where the counts are those of the outcomes.
pub proof fn history_shows_the_worst_outcome(
    started_at_unix_secs: u64,
    duration_ms: u64,
    profile_id: Text,
    selected_tasks: Seq<Text>,
    outcomes: Seq<OutcomeModel>,
)
    ensures
        ({
            let entry = history_of(
                started_at_unix_secs,
                duration_ms,
                profile_id,
                selected_tasks,
                runner::summary_of(outcomes),
            ).summary;
            let has = |status: OutcomeStatus|
                exists|i: int| 0 <= i < outcomes.len() && (#[trigger] outcomes[i]).status == status;
            &&& entry.outcome_labels.len() == outcomes.len()
            &&& entry.overall_status() == if has(OutcomeStatus::Fail) {
                OutcomeStatus::Fail
            } else if has(OutcomeStatus::Warn) {
                OutcomeStatus::Warn
            } else {
                OutcomeStatus::Success
            }
        }),
{
    lemma_count_status(outcomes, OutcomeStatus::Fail);
    lemma_count_status(outcomes, OutcomeStatus::Warn);
}

proof fn lemma_count_status(outcomes: Seq<OutcomeModel>, status: OutcomeStatus)
    ensures
        runner::count_status(outcomes, status) != 0 <==> exists|i: int|
            0 <= i < outcomes.len() && (#[trigger] outcomes[i]).status == status,
    decreases outcomes.len(),
{
    if outcomes.len() > 0 {
        let init = outcomes.drop_last();
        lemma_count_status(init, status);
        if runner::count_status(init, status) != 0 {
            let i = choose|i: int| 0 <= i < init.len() && (#[trigger] init[i]).status == status;
            assert(outcomes[i].status == status);
        } else {
            assert forall|i: int| 0 <= i < outcomes.len() - 1 implies (#[trigger] outcomes[i]).status
                != status by {
                assert(init[i] == outcomes[i]);
            }
            assert(outcomes[outcomes.len() - 1] == outcomes.last());
        }
    }
}

} // verus!

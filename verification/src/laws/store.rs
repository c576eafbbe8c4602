//! What is kept: profiles, variables, the history of runs and the saved state.

use crate::failure::FailureModel;
use crate::paths;
use crate::paths::PathStyle;
use crate::persistence;
use crate::persistence::{
    HistoryModel, HistorySummaryModel, PersistedModel, SaveModel, SaveStep, StoredModel,
};
use crate::profiles;
use crate::runner::{OutcomeStatus, RunOptions, SummaryModel};
use crate::text;
use crate::text::Text;
use crate::variables;
use vstd::prelude::*;

verus! {

/// Of a history at most the latest 20 runs are kept, in their order, and all of a
/// shorter one.
pub proof fn the_latest_runs_are_kept(history: Seq<HistoryModel>)
    ensures
        history.len() <= 20 ==> persistence::trimmed(history) == history,
        history.len() > 20 ==> persistence::trimmed(history).len() == 20 && forall|i: int|
            0 <= i < 20 ==> #[trigger] persistence::trimmed(history)[i] == history[history.len() - 20
                + i],
{
}

/// `kept` is `state` with at most the latest 20 runs of its history.
pub open spec fn keeps_the_latest(state: PersistedModel, kept: PersistedModel) -> bool {
    &&& kept.version == state.version
    &&& kept.active_profile_id == state.active_profile_id
    &&& kept.custom_profile == state.custom_profile
    &&& kept.history.len() == if state.history.len() <= 20 {
        state.history.len() as int
    } else {
        20
    }
    &&& forall|i: int|
        0 <= i < kept.history.len() ==> #[trigger] kept.history[i] == state.history[i
            + state.history.len() - kept.history.len()]
}

/// Trimming a state changes nothing but its history.
pub proof fn trimming_touches_the_history_alone(state: PersistedModel)
    ensures
        keeps_the_latest(state, persistence::trimmed_state(state)),
{
}

/// Where nothing was saved, the state has version 1, the custom profile is active with
/// no task and all flags off, and there is no history.
pub proof fn states_begin_empty()
    ensures
        ({
            let state = persistence::initial_state();
            &&& state.version == 1
            &&& state.active_profile_id == "custom"@
            &&& state.custom_profile.selected_tasks.len() == 0
            &&& !state.custom_profile.options.dry_run
            &&& !state.custom_profile.options.verbose
            &&& !state.custom_profile.options.brew_cleanup
            &&& !state.custom_profile.options.npm_audit
            &&& state.history.len() == 0
        }),
{
}

/// A state that was parsed is loaded with at most the latest 20 runs, and a missing one
/// as the initial state. A file that cannot be read or parsed is reported with its
/// path and the reason.
pub proof fn loading_gives_what_is_stored(path: Text, reason: Text, state: PersistedModel)
    ensures
        persistence::loaded(path, StoredModel::Parsed(state)) matches Ok(kept) && keeps_the_latest(
            state,
            kept,
        ),
        persistence::loaded(path, StoredModel::Missing) == Ok::<PersistedModel, FailureModel>(
            persistence::initial_state(),
        ),
        persistence::loaded(path, StoredModel::Unreadable(reason)) == Err::<
            PersistedModel,
            FailureModel,
        >(FailureModel { context: "failed to read "@ + path, cause: Some(reason) }),
        persistence::loaded(path, StoredModel::Unparsable(reason)) == Err::<
            PersistedModel,
            FailureModel,
        >(FailureModel { context: "failed to parse "@ + path, cause: Some(reason) }),
{
}

/// A state is saved in the directory of the path, with at most the latest 20 runs. A path
/// without a directory is named in the failure.
pub proof fn saving_writes_the_state(style: PathStyle, path: Text, state: PersistedModel)
    ensures
        match paths::parent_of(style, path) {
            Some(directory) => persistence::saved(style, path, state) matches Ok(plan)
                && plan.directory == directory && keeps_the_latest(state, plan.state),
            None => persistence::saved(style, path, state) == Err::<SaveModel, FailureModel>(
                FailureModel { context: path + " has no parent directory"@, cause: None },
            ),
        },
{
}

/// What was saved is loaded again, with at most the latest 20 runs.
pub proof fn saved_states_come_back(style: PathStyle, path: Text, state: PersistedModel)
    ensures
        persistence::saved(style, path, state) matches Ok(plan) ==> {
            &&& persistence::loaded(path, StoredModel::Parsed(plan.state)) matches Ok(kept)
            &&& keeps_the_latest(state, kept)
        },
{
}

/// Each step of saving fails in words of its own, with the directory or the path it was
/// about and the reason.
pub proof fn failed_saves_name_the_step(path: Text, directory: Text, reason: Text)
    ensures
        persistence::save_failure_of(path, directory, SaveStep::CreateDirectory, reason) == (
        FailureModel { context: "failed to create "@ + directory, cause: Some(reason) }),
        persistence::save_failure_of(path, directory, SaveStep::Serialize, reason) == (
        FailureModel { context: "failed to serialize state"@, cause: Some(reason) }),
        persistence::save_failure_of(path, directory, SaveStep::Write, reason) == (FailureModel {
            context: "failed to write "@ + path,
            cause: Some(reason),
        }),
{
}

/// The state is in the file `state.toml` of the configuration directory.
pub proof fn states_are_in_the_configuration_directory(style: PathStyle, dir: Text)
    ensures
        persistence::state_path(style, Some(dir)) == Ok::<Text, FailureModel>(
            paths::joined_path(style, dir, "state.toml"@),
        ),
        persistence::state_path(style, None) == Err::<Text, FailureModel>(
            FailureModel {
                context: "could not determine a config directory for upgrade-cockpit"@,
                cause: None,
            },
        ),
{
}

/// The entry for a run has its start, its duration, its profile, its tasks and its counts,
/// and for each outcome in order the label, a colon and how it ended.
pub proof fn entries_hold_the_whole_run(
    started_at: u64,
    duration: u64,
    profile: Text,
    selected: Seq<Text>,
    summary: SummaryModel,
)
    ensures
        ({
            let entry = persistence::history_of(started_at, duration, profile, selected, summary);
            &&& entry.started_at_unix_secs == started_at
            &&& entry.duration_ms == duration
            &&& entry.profile_id == profile
            &&& entry.selected_tasks == selected
            &&& entry.summary.ok_count == summary.ok_count
            &&& entry.summary.warn_count == summary.warn_count
            &&& entry.summary.fail_count == summary.fail_count
            &&& entry.summary.outcome_labels.len() == summary.outcomes.len()
            &&& forall|i: int|
                0 <= i < summary.outcomes.len() ==> #[trigger] entry.summary.outcome_labels[i]
                    == summary.outcomes[i].label + ":"@ + match summary.outcomes[i].status {
                    OutcomeStatus::Success => "OK"@,
                    OutcomeStatus::Warn => "WARN"@,
                    OutcomeStatus::Fail => "FAIL"@,
                }
        }),
{
}

/// A run counts as failed exactly where a task failed, as a success exactly where no
/// task failed or asked for attention, and else as one that asks for attention.
pub proof fn entries_show_the_worst_status(summary: HistorySummaryModel)
    ensures
        summary.overall_status() == OutcomeStatus::Fail <==> summary.fail_count > 0,
        summary.overall_status() == OutcomeStatus::Warn <==> summary.fail_count == 0
            && summary.warn_count > 0,
        summary.overall_status() == OutcomeStatus::Success <==> summary.fail_count == 0
            && summary.warn_count == 0,
{
}

/// The custom profile holds the given tasks and flags under its own id.
pub proof fn the_custom_profile_holds_the_own_selection(selected: Seq<Text>, options: RunOptions)
    ensures
        ({
            let profile = profiles::custom_profile(selected, options);
            &&& profile.id == "custom"@
            &&& profile.label == "Custom"@
            &&& profile.description == "Your current saved task selection and runtime flags."@
            &&& profile.selected_tasks == selected
            &&& profile.options == options
        }),
{
}

/// There are four profiles to choose from, in this order, and none of them sets a flag.
pub proof fn standard_profiles_set_no_flag()
    ensures
        ({
            let all = profiles::standard_profiles();
            &&& all.len() == 4
            &&& all[0].id == "full"@ && all[0].label == "Full"@
            &&& all[1].id == "safe"@ && all[1].label == "Safe"@
            &&& all[2].id == "toolchains"@ && all[2].label == "Toolchains"@
            &&& all[3].id == "package-managers"@ && all[3].label == "Package Managers"@
            &&& forall|i: int|
                0 <= i < 4 ==> !(#[trigger] all[i]).options.dry_run && !all[i].options.verbose
                    && !all[i].options.brew_cleanup && !all[i].options.npm_audit
        }),
{
    let all = profiles::standard_profiles();
    assert forall|i: int| 0 <= i < 4 implies !(#[trigger] all[i]).options.dry_run
        && !all[i].options.verbose && !all[i].options.brew_cleanup && !all[i].options.npm_audit by {
        assert(i == 0 || i == 1 || i == 2 || i == 3);
    }
}

/// The full profile selects seven tasks. The safe profile leaves out `flutter` alone, the
/// profile for toolchains `brew` and `npm-tools`, and that for package managers selects
/// `brew`, `node` and `npm-tools`.
pub proof fn standard_profiles_select_their_tasks()
    ensures
        ({
            let all = profiles::standard_profiles();
            let everything = all[0].selected_tasks;
            &&& everything.len() == 7
            &&& everything[0] == "rust"@ && everything[1] == "julia"@ && everything[2] == "brew"@
            &&& everything[3] == "flutter"@ && everything[4] == "node"@ && everything[5]
                == "sdkman"@ && everything[6] == "npm-tools"@
            &&& all[1].selected_tasks == everything.remove(3)
            &&& all[2].selected_tasks == everything.remove(6).remove(2)
            &&& all[3].selected_tasks == seq!["brew"@, "node"@, "npm-tools"@]
        }),
{
    let all = profiles::standard_profiles();
    let everything = all[0].selected_tasks;
    assert(all[1].selected_tasks =~= everything.remove(3));
    assert(all[2].selected_tasks =~= everything.remove(6).remove(2));
}

/// The profiles say what they are for.
pub proof fn standard_profiles_are_described()
    ensures
        ({
            let all = profiles::standard_profiles();
            &&& all[0].description
                == "Run the full maintenance sweep across every registered task."@
            &&& all[1].description
                == "A conservative pass that avoids tasks marked dangerous while still refreshing core tooling."@
            &&& all[2].description == "Focus on language runtimes and SDK managers."@
            &&& all[3].description
                == "Refresh package managers and globally installed CLI tooling."@
        }),
{
}

/// After a variable is set, it occurs once, with that value, and every other variable
/// occurs as before. The names ascend.
pub proof fn variables_are_set_one_by_one(
    env: Seq<(Text, Text)>,
    name: Text,
    value: Text,
    other: Text,
    content: Text,
)
    requires
        forall|i: int, j: int|
            0 <= i < j < env.len() ==> text::text_lt((#[trigger] env[i]).0, (#[trigger] env[j]).0),
    ensures
        ({
            let after = variables::with_setting(env, name, value);
            &&& after.contains((name, value))
            &&& after.contains((name, content)) ==> content == value
            &&& other != name ==> (after.contains((other, content)) <==> env.contains(
                (other, content),
            ))
            &&& forall|i: int, j: int|
                0 <= i < j < after.len() ==> text::text_lt(
                    (#[trigger] after[i]).0,
                    (#[trigger] after[j]).0,
                )
        }),
{
    variables::setting_a_variable_changes_it_alone(env, name, value, other);
    let after = variables::with_setting(env, name, value);
    lemma_setting_is_member(after, name, value);
    lemma_setting_is_member(after, name, content);
    lemma_setting_is_member(after, other, content);
    lemma_setting_is_member(env, other, content);
}

proof fn lemma_setting_is_member(env: Seq<(Text, Text)>, name: Text, value: Text)
    requires
        variables::names_ascend(env),
    ensures
        env.contains((name, value)) <==> variables::setting_of(env, name) == Some(value),
    decreases env.len(),
{
    if env.len() > 0 {
        let init = env.drop_last();
        assert forall|i: int| 0 <= i < init.len() implies #[trigger] init[i] == env[i] by {}
        lemma_setting_is_member(init, name, value);
        let last = env.len() - 1;
        if env.contains((name, value)) {
            let i = choose|i: int| 0 <= i < env.len() && env[i] == (name, value);
            if i < last {
                assert(init[i] == (name, value));
                assert(text::text_lt(env[i].0, env[last].0));
                text::lemma_text_lt_irreflexive(name);
            }
        }
        if env.last().0 == name {
            assert(env[last] == env.last());
        } else if init.contains((name, value)) {
            let i = choose|i: int| 0 <= i < init.len() && init[i] == (name, value);
            assert(env[i] == (name, value));
        }
    }
}

} // verus!

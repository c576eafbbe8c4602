//! Profiles: named task selections with their runtime flags.

use crate::runner;
use crate::runner::RunOptions;
use crate::text::{clone_texts, Text};
use vstd::prelude::*;

verus! {

/// The id of the profile that holds the user's own selection.
pub const CUSTOM_PROFILE_ID: &'static str = "custom";

/// A named selection of tasks with runtime flags.
#[derive(Debug, PartialEq, Eq)]
pub struct ProfileDefinition {
    pub id: String,
    pub label: String,
    pub description: String,
    pub selected_tasks: Vec<String>,
    pub options: RunOptions,
}

/// The content of a [`ProfileDefinition`].
#[verifier::ext_equal]
pub struct ProfileModel {
    pub id: Text,
    pub label: Text,
    pub description: Text,
    pub selected_tasks: Seq<Text>,
    pub options: RunOptions,
}

impl View for ProfileDefinition {
    type V = ProfileModel;

    open spec fn view(&self) -> ProfileModel {
        ProfileModel {
            id: self.id@,
            label: self.label@,
            description: self.description@,
            selected_tasks: self.selected_tasks.deep_view(),
            options: self.options,
        }
    }
}

impl DeepView for ProfileDefinition {
    type V = ProfileModel;

    open spec fn deep_view(&self) -> ProfileModel {
        self.view()
    }
}

impl Clone for ProfileDefinition {
    fn clone(&self) -> (res: Self)
        ensures
            res@ == self@,
    {
        ProfileDefinition {
            id: self.id.clone(),
            label: self.label.clone(),
            description: self.description.clone(),
            selected_tasks: clone_texts(&self.selected_tasks),
            options: self.options,
        }
    }
}

/// The profile of the user's own selection.
pub open spec fn custom_profile(selected_tasks: Seq<Text>, options: RunOptions) -> ProfileModel {
    ProfileModel {
        id: CUSTOM_PROFILE_ID@,
        label: "Custom"@,
        description: "Your current saved task selection and runtime flags."@,
        selected_tasks,
        options,
    }
}

impl ProfileDefinition {
    /// The profile of the user's own selection.
    pub fn custom(selected_tasks: Vec<String>, options: RunOptions) -> (res: Self)
        ensures
            res@ == custom_profile(selected_tasks.deep_view(), options),
    {
        ProfileDefinition {
            id: CUSTOM_PROFILE_ID.to_owned(),
            label: "Custom".to_owned(),
            description: "Your current saved task selection and runtime flags.".to_owned(),
            selected_tasks,
            options,
        }
    }
}

/// The maintenance profiles that are always there.
pub open spec fn standard_profiles() -> Seq<ProfileModel> {
    seq![
        ProfileModel {
            id: "full"@,
            label: "Full"@,
            description: "Run the full maintenance sweep across every registered task."@,
            selected_tasks: seq![
                "rust"@,
                "julia"@,
                "brew"@,
                "flutter"@,
                "node"@,
                "sdkman"@,
                "npm-tools"@,
            ],
            options: runner::no_options(),
        },
        ProfileModel {
            id: "safe"@,
            label: "Safe"@,
            description:
                "A conservative pass that avoids tasks marked dangerous while still refreshing core tooling."@,
            selected_tasks: seq!["rust"@, "julia"@, "brew"@, "node"@, "sdkman"@, "npm-tools"@],
            options: runner::no_options(),
        },
        ProfileModel {
            id: "toolchains"@,
            label: "Toolchains"@,
            description: "Focus on language runtimes and SDK managers."@,
            selected_tasks: seq!["rust"@, "julia"@, "flutter"@, "node"@, "sdkman"@],
            options: runner::no_options(),
        },
        ProfileModel {
            id: "package-managers"@,
            label: "Package Managers"@,
            description: "Refresh package managers and globally installed CLI tooling."@,
            selected_tasks: seq!["brew"@, "node"@, "npm-tools"@],
            options: runner::no_options(),
        },
    ]
}

fn push_text(texts: &mut Vec<String>, text: &str)
    ensures
        final(texts).deep_view() == old(texts).deep_view().push(text@),
{
    texts.push(text.to_owned());
    assert(texts.deep_view() =~= old(texts).deep_view().push(text@));
}

fn standard_profile(
    id: &str,
    label: &str,
    description: &str,
    selected_tasks: Vec<String>,
) -> (res: ProfileDefinition)
    ensures
        res@ == (ProfileModel {
            id: id@,
            label: label@,
            description: description@,
            selected_tasks: selected_tasks.deep_view(),
            options: runner::no_options(),
        }),
{
    ProfileDefinition {
        id: id.to_owned(),
        label: label.to_owned(),
        description: description.to_owned(),
        selected_tasks,
        options: RunOptions::default(),
    }
}

/// The maintenance profiles that are always there.
pub fn built_in_profiles() -> (res: Vec<ProfileDefinition>)
    ensures
        res.deep_view() == standard_profiles(),
{
    let mut everything: Vec<String> = Vec::new();
    push_text(&mut everything, "rust");
    push_text(&mut everything, "julia");
    push_text(&mut everything, "brew");
    push_text(&mut everything, "flutter");
    push_text(&mut everything, "node");
    push_text(&mut everything, "sdkman");
    push_text(&mut everything, "npm-tools");
    let mut safe: Vec<String> = Vec::new();
    push_text(&mut safe, "rust");
    push_text(&mut safe, "julia");
    push_text(&mut safe, "brew");
    push_text(&mut safe, "node");
    push_text(&mut safe, "sdkman");
    push_text(&mut safe, "npm-tools");
    let mut toolchains: Vec<String> = Vec::new();
    push_text(&mut toolchains, "rust");
    push_text(&mut toolchains, "julia");
    push_text(&mut toolchains, "flutter");
    push_text(&mut toolchains, "node");
    push_text(&mut toolchains, "sdkman");
    let mut managers: Vec<String> = Vec::new();
    push_text(&mut managers, "brew");
    push_text(&mut managers, "node");
    push_text(&mut managers, "npm-tools");
    let ghost wanted = standard_profiles();
    assert(everything.deep_view() =~= wanted[0].selected_tasks);
    assert(safe.deep_view() =~= wanted[1].selected_tasks);
    assert(toolchains.deep_view() =~= wanted[2].selected_tasks);
    assert(managers.deep_view() =~= wanted[3].selected_tasks);
    let mut res: Vec<ProfileDefinition> = Vec::new();
    res.push(
        standard_profile(
            "full",
            "Full",
            "Run the full maintenance sweep across every registered task.",
            everything,
        ),
    );
    res.push(
        standard_profile(
            "safe",
            "Safe",
            "A conservative pass that avoids tasks marked dangerous while still refreshing core tooling.",
            safe,
        ),
    );
    res.push(
        standard_profile(
            "toolchains",
            "Toolchains",
            "Focus on language runtimes and SDK managers.",
            toolchains,
        ),
    );
    res.push(
        standard_profile(
            "package-managers",
            "Package Managers",
            "Refresh package managers and globally installed CLI tooling.",
            managers,
        ),
    );
    assert(res.deep_view() =~= wanted);
    res
}

/// No two profiles share an id, and none of the standard ones has the id of the
/// user's own.
pub proof fn profile_ids_are_distinct(selected_tasks: Seq<Text>, options: RunOptions)
    ensures
        (seq![custom_profile(selected_tasks, options)] + standard_profiles()).map_values(
            |profile: ProfileModel| profile.id,
        ).no_duplicates(),
{
    reveal_strlit("custom");
    reveal_strlit("full");
    reveal_strlit("safe");
    reveal_strlit("toolchains");
    reveal_strlit("package-managers");
    let ids = (seq![custom_profile(selected_tasks, options)] + standard_profiles()).map_values(
        |profile: ProfileModel| profile.id,
    );
    assert(ids[0][0] == 'c');
    assert(ids[1][0] == 'f');
    assert(ids[2][0] == 's');
    assert(ids[3][0] == 't');
    assert(ids[4][0] == 'p');
}

} // verus!

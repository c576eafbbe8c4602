//! The environment variables of a task.

use crate::text;
use crate::text::{text_eq, text_less, Text};
use vstd::prelude::*;

verus! {

/// Variables with their values, by ascending name: each name occurs once.
#[derive(Debug, PartialEq, Eq)]
pub struct TaskEnv {
    entries: Vec<(String, String)>,
}

impl View for TaskEnv {
    type V = Seq<(Text, Text)>;

    closed spec fn view(&self) -> Seq<(Text, Text)> {
        self.entries.deep_view()
    }
}

/// The names ascend, so that none occurs twice.
pub open spec fn names_ascend(env: Seq<(Text, Text)>) -> bool {
    forall|i: int, j: int|
        0 <= i < j < env.len() ==> text::text_lt((#[trigger] env[i]).0, (#[trigger] env[j]).0)
}

/// The value that a list of settings leaves a variable with: the last one set.
pub open spec fn setting_of(env: Seq<(Text, Text)>, name: Text) -> Option<Text>
    decreases env.len(),
{
    if env.len() == 0 {
        None
    } else if env.last().0 == name {
        Some(env.last().1)
    } else {
        setting_of(env.drop_last(), name)
    }
}

/// Variables of ascending name with one of them set: in the place of the former
/// value, or where the name belongs.
pub open spec fn with_setting(env: Seq<(Text, Text)>, name: Text, value: Text) -> Seq<(Text, Text)>
    decreases env.len(),
{
    if env.len() == 0 {
        seq![(name, value)]
    } else if env.last().0 == name {
        env.drop_last().push((name, value))
    } else if text::text_lt(env.last().0, name) {
        env.push((name, value))
    } else {
        with_setting(env.drop_last(), name, value).push(env.last())
    }
}

/// Setting a variable gives it that value, leaves every other as it was, and
/// keeps the names ascending.
pub proof fn setting_a_variable_changes_it_alone(
    env: Seq<(Text, Text)>,
    name: Text,
    value: Text,
    other: Text,
)
    requires
        names_ascend(env),
    ensures
        names_ascend(with_setting(env, name, value)),
        setting_of(with_setting(env, name, value), name) == Some(value),
        other != name ==> setting_of(with_setting(env, name, value), other) == setting_of(
            env,
            other,
        ),
    decreases env.len(),
{
    let after = with_setting(env, name, value);
    lemma_names_after(env, name, value);
    if env.len() == 0 {
        assert(after.drop_last() =~= env);
    } else {
        let init = env.drop_last();
        let last = env.last();
        assert(forall|i: int| 0 <= i < init.len() ==> init[i] == env[i]);
        if last.0 == name {
            assert(after.drop_last() =~= init);
        } else if text::text_lt(last.0, name) {
            assert(after.drop_last() =~= env);
            assert forall|i: int, j: int| 0 <= i < j < after.len() implies text::text_lt(
                (#[trigger] after[i]).0,
                (#[trigger] after[j]).0,
            ) by {
                if j == env.len() && i < env.len() - 1 {
                    text::lemma_text_lt_transitive(env[i].0, last.0, name);
                }
            }
        } else {
            text::lemma_text_lt_total(last.0, name);
            setting_a_variable_changes_it_alone(init, name, value, other);
            let shorter = with_setting(init, name, value);
            assert(after.drop_last() =~= shorter);
            assert forall|i: int, j: int| 0 <= i < j < after.len() implies text::text_lt(
                (#[trigger] after[i]).0,
                (#[trigger] after[j]).0,
            ) by {
                if j == shorter.len() {
                    lemma_names_after(init, name, value);
                    if shorter[i].0 != name {
                        let k = choose|k: int|
                            0 <= k < init.len() && (#[trigger] init[k]).0 == shorter[i].0;
                        assert(env[k].0 == after[i].0);
                        assert(text::text_lt(env[k].0, env[env.len() - 1].0));
                    }
                }
            }
        }
    }
}

/// Setting a variable brings no other name.
proof fn lemma_names_after(env: Seq<(Text, Text)>, name: Text, value: Text)
    ensures
        forall|i: int|
            0 <= i < with_setting(env, name, value).len() ==> (#[trigger] with_setting(
                env,
                name,
                value,
            )[i]).0 == name || exists|k: int|
                0 <= k < env.len() && (#[trigger] env[k]).0 == with_setting(env, name, value)[i].0,
    decreases env.len(),
{
    let after = with_setting(env, name, value);
    if env.len() > 0 {
        let init = env.drop_last();
        lemma_names_after(init, name, value);
        assert forall|i: int| 0 <= i < after.len() && (#[trigger] after[i]).0 != name implies exists|
            k: int,
        |
            0 <= k < env.len() && (#[trigger] env[k]).0 == after[i].0 by {
            if env.last().0 == name || text::text_lt(env.last().0, name) {
                assert(env[i].0 == after[i].0);
            } else {
                let shorter = with_setting(init, name, value);
                if i < shorter.len() {
                    assert(shorter[i].0 != name);
                    let k = choose|k: int|
                        0 <= k < init.len() && (#[trigger] init[k]).0 == shorter[i].0;
                    assert(env[k].0 == after[i].0);
                } else {
                    assert(env[env.len() - 1].0 == after[i].0);
                }
            }
        }
    }
}

/// Where the entries from `i` on have greater names, the setting concerns those
/// before `i` alone.
proof fn lemma_setting_below(env: Seq<(Text, Text)>, name: Text, value: Text, i: int)
    requires
        0 <= i <= env.len(),
        forall|j: int| i <= j < env.len() ==> text::text_lt(name, (#[trigger] env[j]).0),
    ensures
        with_setting(env, name, value) == with_setting(env.take(i), name, value) + env.skip(i),
    decreases env.len(),
{
    if i == env.len() {
        assert(env.take(i) =~= env);
        assert(with_setting(env, name, value) + env.skip(i) =~= with_setting(env, name, value));
    } else {
        let init = env.drop_last();
        let last = env.len() - 1;
        assert(text::text_lt(name, env[last].0));
        text::lemma_text_lt_irreflexive(name);
        if text::text_lt(env[last].0, name) {
            text::lemma_text_lt_transitive(name, env[last].0, name);
        }
        lemma_setting_below(init, name, value, i);
        assert(init.take(i) =~= env.take(i));
        assert((with_setting(env.take(i), name, value) + init.skip(i)).push(env.last())
            =~= with_setting(env.take(i), name, value) + env.skip(i));
    }
}

impl TaskEnv {
    #[verifier::type_invariant]
    spec fn inv(self) -> bool {
        names_ascend(self.entries.deep_view())
    }

    /// No variable.
    pub fn new() -> (res: Self)
        ensures
            res@ == Seq::<(Text, Text)>::empty(),
    {
        let entries: Vec<(String, String)> = Vec::new();
        assert(entries.deep_view() =~= Seq::empty());
        TaskEnv { entries }
    }

    /// The variables, by ascending name.
    pub fn entries(&self) -> (res: &Vec<(String, String)>)
        ensures
            res.deep_view() == self@,
            names_ascend(self@),
    {
        proof {
            use_type_invariant(self);
        }
        &self.entries
    }

    /// Sets a variable, in place of a former value.
    pub fn insert(&mut self, name: String, value: String)
        ensures
            final(self)@ == with_setting(old(self)@, name@, value@),
            names_ascend(final(self)@),
    {
        proof {
            use_type_invariant(&*self);
            setting_a_variable_changes_it_alone(self@, name@, value@, name@);
        }
        let ghost before = self@;
        let ghost wanted = with_setting(before, name@, value@);
        let mut entries: Vec<(String, String)> = Vec::new();
        assert(entries.deep_view() =~= Seq::empty());
        std::mem::swap(&mut entries, &mut self.entries);
        let mut i: usize = entries.len();
        while i > 0 && text_less(name.as_str(), entries[i - 1].0.as_str())
            invariant
                i <= entries.len(),
                entries.deep_view() == before,
                forall|j: int|
                    i <= j < before.len() ==> text::text_lt(name@, (#[trigger] before[j]).0),
            decreases i,
        {
            i -= 1;
        }
        proof {
            lemma_setting_below(before, name@, value@, i as int);
        }
        let ghost head = before.take(i as int);
        let found = i > 0 && text_eq(entries[i - 1].0.as_str(), name.as_str());
        let ghost pair = (name@, value@);
        if found {
            assert(head.last().0 == name@);
            entries.set(i - 1, (name, value));
            assert(entries.deep_view() =~= before.update(i - 1, pair));
            assert(entries.deep_view() =~= head.drop_last().push(pair) + before.skip(i as int));
        } else {
            proof {
                if i > 0 {
                    text::lemma_text_lt_total(head.last().0, name@);
                }
            }
            entries.insert(i, (name, value));
            assert(entries.deep_view() =~= before.insert(i as int, pair));
            assert(entries.deep_view() =~= head.push(pair) + before.skip(i as int));
        }
        assert(entries.deep_view() =~= wanted);
        self.entries = entries;
    }
}

impl Default for TaskEnv {
    fn default() -> (res: Self)
        ensures
            res@ == Seq::<(Text, Text)>::empty(),
    {
        TaskEnv::new()
    }
}

impl Clone for TaskEnv {
    fn clone(&self) -> (res: Self)
        ensures
            res@ == self@,
    {
        proof {
            use_type_invariant(self);
        }
        TaskEnv { entries: clone_entries(&self.entries) }
    }
}

/// A copy of a list of settings.
fn clone_entries(env: &Vec<(String, String)>) -> (res: Vec<(String, String)>)
    ensures
        res.deep_view() == env.deep_view(),
{
    let mut res: Vec<(String, String)> = Vec::new();
    let mut i: usize = 0;
    while i < env.len()
        invariant
            i <= env.len(),
            res.deep_view() =~= env.deep_view().take(i as int),
        decreases env.len() - i,
    {
        let ghost before = res.deep_view();
        let key = env[i].0.clone();
        let value = env[i].1.clone();
        res.push((key, value));
        assert(res.deep_view() =~= before.push(env.deep_view()[i as int]));
        i += 1;
    }
    assert(env.deep_view().take(env.len() as int) =~= env.deep_view());
    res
}

} // verus!

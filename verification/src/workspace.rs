//! Finding the directory that holds the task manifests.

use crate::failure::{Failure, FailureModel};
use crate::runner;
use crate::text::{concat2, Text};
use vstd::prelude::*;

verus! {

/// A directory, and whether there is a tasks directory in it.
#[derive(Debug, PartialEq, Eq)]
pub struct RootCandidate {
    pub path: String,
    pub has_tasks: bool,
}

/// The content of a [`RootCandidate`].
#[verifier::ext_equal]
pub struct CandidateModel {
    pub path: Text,
    pub has_tasks: bool,
}

impl View for RootCandidate {
    type V = CandidateModel;

    open spec fn view(&self) -> CandidateModel {
        CandidateModel { path: self.path@, has_tasks: self.has_tasks }
    }
}

impl DeepView for RootCandidate {
    type V = CandidateModel;

    open spec fn deep_view(&self) -> CandidateModel {
        self.view()
    }
}

/// The directory if there is a tasks directory in it.
pub open spec fn validated(root: CandidateModel) -> Result<Text, FailureModel> {
    if root.has_tasks {
        Ok(root.path)
    } else {
        Err(
            FailureModel {
                context: root.path + " does not contain a tasks directory"@,
                cause: None,
            },
        )
    }
}

/// The directory if there is a tasks directory in it.
pub fn validate_root(root: &RootCandidate) -> (res: Result<String, Failure>)
    ensures
        runner::text_result(res) == validated(root@),
{
    if root.has_tasks {
        Ok(root.path.clone())
    } else {
        Err(
            Failure {
                context: concat2(root.path.as_str(), " does not contain a tasks directory"),
                cause: None,
            },
        )
    }
}

/// The first of the directories with a tasks directory in it.
pub open spec fn first_root(candidates: Seq<CandidateModel>) -> Option<Text>
    decreases candidates.len(),
{
    if candidates.len() == 0 {
        None
    } else if candidates[0].has_tasks {
        Some(candidates[0].path)
    } else {
        first_root(candidates.drop_first())
    }
}

/// The first of the directories with a tasks directory in it.
pub fn find_root(candidates: &Vec<RootCandidate>) -> (res: Option<String>)
    ensures
        res.deep_view() == first_root(candidates.deep_view()),
{
    let ghost all = candidates.deep_view();
    let mut i: usize = 0;
    assert(all.skip(0) =~= all);
    while i < candidates.len()
        invariant
            i <= candidates.len(),
            all == candidates.deep_view(),
            first_root(all) == first_root(all.skip(i as int)),
        decreases candidates.len() - i,
    {
        if candidates[i].has_tasks {
            return Some(candidates[i].path.clone());
        }
        assert(all.skip(i as int).drop_first() =~= all.skip(i + 1));
        i += 1;
    }
    None
}

/// Directories, or why they could not be listed, as content.
pub open spec fn candidates_view(candidates: Result<Vec<RootCandidate>, Failure>) -> Result<
    Seq<CandidateModel>,
    FailureModel,
> {
    match candidates {
        Ok(list) => Ok(list.deep_view()),
        Err(failure) => Err(failure@),
    }
}

/// The root directory: the one asked for, or else the first suitable one among
/// the current directory and those above it, or else among the directory of the
/// executable and those above it.
pub open spec fn located_root(
    explicit: Option<CandidateModel>,
    current: Result<Seq<CandidateModel>, FailureModel>,
    executable: Result<Seq<CandidateModel>, FailureModel>,
) -> Result<Text, FailureModel> {
    match explicit {
        Some(root) => validated(root),
        None => match current {
            Err(failure) => Err(failure),
            Ok(above_current) => match first_root(above_current) {
                Some(root) => Ok(root),
                None => match executable {
                    Err(failure) => Err(failure),
                    Ok(above_executable) => match first_root(above_executable) {
                        Some(root) => Ok(root),
                        None => Err(
                            FailureModel {
                                context:
                                    "could not locate a project root containing a tasks directory"@,
                                cause: None,
                            },
                        ),
                    },
                },
            },
        },
    }
}

/// The root directory: the one asked for, or else the first suitable one among
/// the current directory and those above it, or else among the directory of the
/// executable and those above it.
pub fn discover_root(
    explicit: Option<&RootCandidate>,
    current: Result<Vec<RootCandidate>, Failure>,
    executable: Result<Vec<RootCandidate>, Failure>,
) -> (res: Result<String, Failure>)
    ensures
        runner::text_result(res) == located_root(
            explicit.deep_view(),
            candidates_view(current),
            candidates_view(executable),
        ),
{
    match explicit {
        Some(root) => {
            return validate_root(root);
        },
        None => {},
    }
    match current {
        Err(failure) => {
            return Err(failure);
        },
        Ok(list) => match find_root(&list) {
            Some(root) => {
                return Ok(root);
            },
            None => {},
        },
    }
    match executable {
        Err(failure) => {
            return Err(failure);
        },
        Ok(list) => match find_root(&list) {
            Some(root) => {
                return Ok(root);
            },
            None => {},
        },
    }
    Err(
        Failure {
            context: "could not locate a project root containing a tasks directory".to_owned(),
            cause: None,
        },
    )
}

/// Whatever directory is settled on, it is one of those offered and has a tasks
/// directory in it.
pub proof fn located_roots_have_tasks(
    explicit: Option<CandidateModel>,
    current: Result<Seq<CandidateModel>, FailureModel>,
    executable: Result<Seq<CandidateModel>, FailureModel>,
)
    ensures
        located_root(explicit, current, executable) matches Ok(root) ==> {
            let suitable = CandidateModel { path: root, has_tasks: true };
            ||| explicit == Some(suitable)
            ||| current matches Ok(list) && list.contains(suitable)
            ||| executable matches Ok(list) && list.contains(suitable)
        },
{
    match current {
        Ok(list) => {
            lemma_first_root(list);
        },
        Err(_) => {},
    }
    match executable {
        Ok(list) => {
            lemma_first_root(list);
        },
        Err(_) => {},
    }
}

proof fn lemma_first_root(candidates: Seq<CandidateModel>)
    ensures
        first_root(candidates) matches Some(root) ==> candidates.contains(
            CandidateModel { path: root, has_tasks: true },
        ),
    decreases candidates.len(),
{
    if candidates.len() > 0 {
        if candidates[0].has_tasks {
            assert(candidates[0] == CandidateModel { path: candidates[0].path, has_tasks: true });
        } else {
            let rest = candidates.drop_first();
            lemma_first_root(rest);
            match first_root(rest) {
                Some(root) => {
                    let i = rest.index_of(CandidateModel { path: root, has_tasks: true });
                    assert(candidates[i + 1] == rest[i]);
                },
                None => {},
            }
        }
    }
}

} // verus!

//! Failures of outside work: what was attempted, and why it did not succeed.

use crate::text::{clone_optional, concat3, Text};
use vstd::prelude::*;

verus! {

/// What failed, with the underlying cause where there is one.
#[derive(Debug, PartialEq, Eq)]
pub struct Failure {
    pub context: String,
    pub cause: Option<String>,
}

/// The content of a [`Failure`].
#[verifier::ext_equal]
pub struct FailureModel {
    pub context: Text,
    pub cause: Option<Text>,
}

impl View for Failure {
    type V = FailureModel;

    open spec fn view(&self) -> FailureModel {
        FailureModel { context: self.context@, cause: self.cause.deep_view() }
    }
}

impl DeepView for Failure {
    type V = FailureModel;

    open spec fn deep_view(&self) -> FailureModel {
        self.view()
    }
}

impl Clone for Failure {
    fn clone(&self) -> (res: Self)
        ensures
            res@ == self@,
    {
        Failure { context: self.context.clone(), cause: clone_optional(&self.cause) }
    }
}

impl FailureModel {
    /// The failure with its cause.
    pub open spec fn full_message(self) -> Text {
        match self.cause {
            Some(cause) => self.context + ": "@ + cause,
            None => self.context,
        }
    }
}

impl Failure {
    /// The failure without its cause.
    pub fn message(&self) -> (res: String)
        ensures
            res@ == self@.context,
    {
        self.context.clone()
    }

    /// The failure with its cause.
    pub fn full_message(&self) -> (res: String)
        ensures
            res@ == self@.full_message(),
    {
        match &self.cause {
            Some(cause) => concat3(self.context.as_str(), ": ", cause.as_str()),
            None => self.context.clone(),
        }
    }
}

} // verus!

//! Command lines, once they have been parsed.

use crate::runner::RunOptions;
use crate::text::{clone_texts, Text};
use vstd::prelude::*;

verus! {

/// What the user asked for.
#[derive(Debug, PartialEq, Eq)]
pub enum Command {
    /// Shows every task.
    List,
    /// Shows the tasks that would run.
    Plan { all: bool, tasks: Vec<String> },
    /// Runs tasks on the terminal.
    Run { all: bool, tasks: Vec<String> },
    /// Opens the cockpit.
    Tui,
}

/// A parsed command line.
#[derive(Debug, PartialEq, Eq)]
pub struct Cli {
    pub root: Option<String>,
    pub dry_run: bool,
    pub verbose: bool,
    pub brew_cleanup: bool,
    pub npm_audit: bool,
    pub command: Option<Command>,
}

/// The content of a [`Command`].
#[verifier::ext_equal]
pub enum RequestModel {
    List,
    Plan { all: bool, tasks: Seq<Text> },
    Run { all: bool, tasks: Seq<Text> },
    Tui,
}

/// The content of a [`Cli`].
#[verifier::ext_equal]
pub struct CliModel {
    pub root: Option<Text>,
    pub options: RunOptions,
    pub command: Option<RequestModel>,
}

impl View for Command {
    type V = RequestModel;

    open spec fn view(&self) -> RequestModel {
        match self {
            Command::List => RequestModel::List,
            Command::Plan { all, tasks } => RequestModel::Plan {
                all: *all,
                tasks: tasks.deep_view(),
            },
            Command::Run { all, tasks } => RequestModel::Run {
                all: *all,
                tasks: tasks.deep_view(),
            },
            Command::Tui => RequestModel::Tui,
        }
    }
}

impl DeepView for Command {
    type V = RequestModel;

    open spec fn deep_view(&self) -> RequestModel {
        self.view()
    }
}

impl View for Cli {
    type V = CliModel;

    open spec fn view(&self) -> CliModel {
        CliModel {
            root: self.root.deep_view(),
            options: RunOptions {
                dry_run: self.dry_run,
                verbose: self.verbose,
                brew_cleanup: self.brew_cleanup,
                npm_audit: self.npm_audit,
            },
            command: self.command.deep_view(),
        }
    }
}

impl Clone for Command {
    fn clone(&self) -> (res: Self)
        ensures
            res@ == self@,
    {
        match self {
            Command::List => Command::List,
            Command::Plan { all, tasks } => Command::Plan {
                all: *all,
                tasks: clone_texts(tasks),
            },
            Command::Run { all, tasks } => Command::Run { all: *all, tasks: clone_texts(tasks) },
            Command::Tui => Command::Tui,
        }
    }
}

/// What is done where no command is given: the cockpit is opened if somebody is
/// there to use it, and else the tasks that are selected by default are run.
pub open spec fn default_request(interactive: bool) -> RequestModel {
    if interactive {
        RequestModel::Tui
    } else {
        RequestModel::Run { all: false, tasks: Seq::empty() }
    }
}

/// What is done: the command that is given, or else the default.
pub open spec fn request_of(cli: CliModel, interactive: bool) -> RequestModel {
    match cli.command {
        Some(command) => command,
        None => default_request(interactive),
    }
}

impl Cli {
    /// The runtime flags that the command line sets.
    pub fn options(&self) -> (res: RunOptions)
        ensures
            res == self@.options,
            res.dry_run == self.dry_run,
            res.verbose == self.verbose,
            res.brew_cleanup == self.brew_cleanup,
            res.npm_audit == self.npm_audit,
    {
        RunOptions {
            dry_run: self.dry_run,
            verbose: self.verbose,
            brew_cleanup: self.brew_cleanup,
            npm_audit: self.npm_audit,
        }
    }

    /// What is to be done. `interactive` tells whether somebody is at the
    /// terminal.
    pub fn request(&self, interactive: bool) -> (res: Command)
        ensures
            res@ == request_of(self@, interactive),
    {
        match &self.command {
            Some(command) => command.clone(),
            None => if interactive {
                Command::Tui
            } else {
                let tasks: Vec<String> = Vec::new();
                assert(tasks.deep_view() =~= Seq::empty());
                Command::Run { all: false, tasks }
            },
        }
    }
}

} // verus!

//! What follows the run of a command.
//!
//! The commands of a build run one after the other, and nothing is tried
//! twice. A command that fails ends the build: what it wrote to standard
//! error goes to the caller as it is, and no later command runs.

use crate::types::{ConfigError, Invocation};
use vstd::prelude::*;

verus! {

/// How the run of a command ended.
#[derive(Debug, Clone)]
pub enum Exit {
    /// The command ran and reported success.
    Success,
    /// The command ran and reported failure; `stderr` is what it had to say.
    Failure { stderr: String },
    /// The program of the command could not be started.
    Missing,
}

/// Why a build was given up.
#[derive(Debug, Clone)]
pub enum BuildError {
    /// A manifest was turned down.
    Config(ConfigError),
    /// A tool that the build needs could not be started.
    ToolMissing { binary: String },
    /// A command reported failure.
    ProcessFailure { stderr: String },
    /// A directory or a file could not be made, removed or read.
    IoFailure { reason: String },
}

/// What a `BuildError` holds.
#[verifier::ext_equal]
pub enum ErrorView {
    Config(ConfigError),
    ToolMissing { binary: Seq<char> },
    ProcessFailure { stderr: Seq<char> },
    IoFailure { reason: Seq<char> },
}

impl DeepView for BuildError {
    type V = ErrorView;

    open spec fn deep_view(&self) -> ErrorView {
        match self {
            BuildError::Config(e) => ErrorView::Config(*e),
            BuildError::ToolMissing { binary } => ErrorView::ToolMissing { binary: binary@ },
            BuildError::ProcessFailure { stderr } => ErrorView::ProcessFailure { stderr: stderr@ },
            BuildError::IoFailure { reason } => ErrorView::IoFailure { reason: reason@ },
        }
    }
}

impl View for BuildError {
    type V = ErrorView;

    open spec fn view(&self) -> ErrorView {
        self.deep_view()
    }
}

/// What the caller does next.
#[derive(Debug, Clone)]
pub enum Next {
    /// Run the command at this place of the plan.
    Run(usize),
    /// Every command has run.
    Done,
    /// Run nothing more.
    GiveUp(BuildError),
}

/// What a `Next` holds.
#[verifier::ext_equal]
pub enum NextView {
    Run(int),
    Done,
    GiveUp(ErrorView),
}

impl DeepView for Next {
    type V = NextView;

    open spec fn deep_view(&self) -> NextView {
        match self {
            Next::Run(place) => NextView::Run(*place as int),
            Next::Done => NextView::Done,
            Next::GiveUp(e) => NextView::GiveUp(e@),
        }
    }
}

impl View for Next {
    type V = NextView;

    open spec fn view(&self) -> NextView {
        self.deep_view()
    }
}

/// Where a plan of `length` commands begins.
pub open spec fn first_of(length: int) -> NextView {
    if length == 0 {
        NextView::Done
    } else {
        NextView::Run(0)
    }
}

/// What follows when the command `binary` at `place` of a plan of `length`
/// commands has ended in `exit`.
pub open spec fn next_of(length: int, place: int, binary: Seq<char>, exit: Exit) -> NextView {
    match exit {
        Exit::Success => if place + 1 < length {
            NextView::Run(place + 1)
        } else {
            NextView::Done
        },
        Exit::Failure { stderr } => NextView::GiveUp(ErrorView::ProcessFailure { stderr: stderr@ }),
        Exit::Missing => NextView::GiveUp(ErrorView::ToolMissing { binary }),
    }
}

/// Says where a plan begins: at its first command, if it has any.
pub fn begin(plan: &Vec<Invocation>) -> (next: Next)
    ensures
        next@ == first_of(plan.len() as int),
{
    if plan.len() == 0 {
        Next::Done
    } else {
        Next::Run(0)
    }
}

/// Says what follows the run of the command at `place`.
///
/// After a success the next command runs, and the plan is done after its
/// last. After a failure nothing runs any more, and what the command wrote
/// goes to the caller unchanged. A command whose program could not be
/// started ends the plan too, and the error names the program.
pub fn advance(plan: &Vec<Invocation>, place: usize, exit: Exit) -> (next: Next)
    requires
        place < plan.len(),
    ensures
        next@ == next_of(plan.len() as int, place as int, plan@[place as int].binary@, exit),
        exit is Success <==> !(next is GiveUp),
{
    match exit {
        Exit::Success => {
            if place + 1 < plan.len() {
                Next::Run(place + 1)
            } else {
                Next::Done
            }
        },
        Exit::Failure { stderr } => Next::GiveUp(BuildError::ProcessFailure { stderr }),
        Exit::Missing => Next::GiveUp(
            BuildError::ToolMissing { binary: plan[place].binary.clone() },
        ),
    }
}

} // verus!

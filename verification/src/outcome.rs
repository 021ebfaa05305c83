//! What a planner hands back: a decision on how to go on, or the reason why the
//! request cannot be carried out.

use vstd::prelude::*;

verus! {

/// Why a command fails. A reason found by a planner carries the names it is
/// about; a failure of the service carries the message that the service gave.
#[derive(Debug, Clone, PartialEq, Eq)]
pub enum ModuleError {
    /// The service could not list the modules.
    CatalogFetchError(String),
    /// The catalog knows no module of this name.
    ModuleNotFound(String),
    /// The module was to be removed and is not installed.
    ModuleNotInstalled(String),
    /// The module was to be installed and is installed already.
    ModuleAlreadyInstalled(String),
    /// `dependency` was to be removed while `dependent`, which stays, needs it.
    ModuleStillDepended { dependency: String, dependent: String },
    /// The service could not install or remove the modules.
    CommandExecutionError(String),
}

/// A `ModuleError` with its names as sequences of characters.
pub enum ModuleErrorView {
    CatalogFetchError(Seq<char>),
    ModuleNotFound(Seq<char>),
    ModuleNotInstalled(Seq<char>),
    ModuleAlreadyInstalled(Seq<char>),
    ModuleStillDepended { dependency: Seq<char>, dependent: Seq<char> },
    CommandExecutionError(Seq<char>),
}

impl View for ModuleError {
    type V = ModuleErrorView;

    open spec fn view(&self) -> ModuleErrorView {
        match self {
            ModuleError::CatalogFetchError(message) => ModuleErrorView::CatalogFetchError(
                message@,
            ),
            ModuleError::CommandExecutionError(message) => ModuleErrorView::CommandExecutionError(
                message@,
            ),
            ModuleError::ModuleNotFound(name) => ModuleErrorView::ModuleNotFound(name@),
            ModuleError::ModuleNotInstalled(name) => ModuleErrorView::ModuleNotInstalled(name@),
            ModuleError::ModuleAlreadyInstalled(name) => ModuleErrorView::ModuleAlreadyInstalled(
                name@,
            ),
            ModuleError::ModuleStillDepended { dependency, dependent } => {
                ModuleErrorView::ModuleStillDepended {
                    dependency: dependency@,
                    dependent: dependent@,
                }
            },
        }
    }
}

/// How a command goes on once a planner has looked at the request.
#[derive(Debug, Clone, PartialEq, Eq)]
pub enum Decision {
    /// There is nothing the command could do: it ends in success.
    NothingToDo,
    /// No modules were named: the operator is to choose among these.
    Ask(Vec<String>),
    /// The operator chose nothing: the command ends without an error.
    Aborted,
    /// These modules are to be installed or removed. `implied` holds the ones
    /// among them that nobody asked for and that the others need.
    Proceed { modules: Vec<String>, implied: Vec<String> },
}

/// A `Decision` with its names as sequences of characters.
pub enum DecisionView {
    NothingToDo,
    Ask(Seq<Seq<char>>),
    Aborted,
    Proceed { modules: Seq<Seq<char>>, implied: Seq<Seq<char>> },
}

impl View for Decision {
    type V = DecisionView;

    open spec fn view(&self) -> DecisionView {
        match self {
            Decision::NothingToDo => DecisionView::NothingToDo,
            Decision::Ask(options) => DecisionView::Ask(options.deep_view()),
            Decision::Aborted => DecisionView::Aborted,
            Decision::Proceed { modules, implied } => DecisionView::Proceed {
                modules: modules.deep_view(),
                implied: implied.deep_view(),
            },
        }
    }
}

/// What a planner returned, with every name as a sequence of characters.
pub open spec fn outcome_view(outcome: Result<Decision, ModuleError>) -> Result<
    DecisionView,
    ModuleErrorView,
> {
    match outcome {
        Ok(decision) => Ok(decision@),
        Err(error) => Err(error@),
    }
}

} // verus!

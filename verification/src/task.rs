use vstd::prelude::*;
use crate::activation::same_text;

verus! {

/// What a network is trained for; it decides the loss and how outputs are
/// read as predictions.
#[derive(Debug, Clone, Copy, PartialEq, Eq, Structural)]
pub enum Task {
    Binary,
    Multi,
    Regression,
}

/// The task that a name denotes, as the bindings accept it.
pub open spec fn task_named(name: Seq<char>) -> Option<Task> {
    if name == "binary"@ {
        Some(Task::Binary)
    } else if name == "multi"@ {
        Some(Task::Multi)
    } else if name == "regression"@ {
        Some(Task::Regression)
    } else {
        None
    }
}

impl Task {
    /// Parses a task name: `"binary"`, `"multi"` or `"regression"`.
    pub fn from_name(name: &str) -> (r: Option<Task>)
        ensures
            r == task_named(name@),
    {
        if same_text(name, "binary") {
            Some(Task::Binary)
        } else if same_text(name, "multi") {
            Some(Task::Multi)
        } else if same_text(name, "regression") {
            Some(Task::Regression)
        } else {
            None
        }
    }

    /// Whether the network's outputs can be read as class probabilities:
    /// true for classification, false for regression.
    pub fn has_probabilities(&self) -> (r: bool)
        ensures
            r == (*self != Task::Regression),
    {
        match self {
            Task::Regression => false,
            _ => true,
        }
    }
}

/// The optimizer that training uses.
#[derive(Debug, Clone, Copy, PartialEq, Eq, Structural)]
pub enum OptimizerKind {
    Sgd,
    Adam,
}

/// The optimizer that a name denotes.
pub open spec fn optimizer_named(name: Seq<char>) -> Option<OptimizerKind> {
    if name == "sgd"@ {
        Some(OptimizerKind::Sgd)
    } else if name == "adam"@ {
        Some(OptimizerKind::Adam)
    } else {
        None
    }
}

impl OptimizerKind {
    /// Parses an optimizer name: `"sgd"` or `"adam"`.
    pub fn from_name(name: &str) -> (r: Option<OptimizerKind>)
        ensures
            r == optimizer_named(name@),
    {
        if same_text(name, "sgd") {
            Some(OptimizerKind::Sgd)
        } else if same_text(name, "adam") {
            Some(OptimizerKind::Adam)
        } else {
            None
        }
    }
}

} // verus!

//! The command-line surface, as plain data, and the dispatch decision.
//!
//! The surrounding program gathers these values from its argument
//! parser and performs the chosen task; the decision of which task an
//! invocation asks for is made here.

use vstd::prelude::*;

verus! {

/// A whole invocation: one subcommand.
#[derive(Debug, PartialEq)]
pub struct Arguments {
    pub subcommand: RootSubcommand,
}

/// The available subcommands.
#[derive(Debug, PartialEq)]
pub enum RootSubcommand {
    /// Evaluates a stored single-formula file with the floating-point
    /// interpreter.
    Evaluate(Evaluate),
    /// Creates a new single-formula file from user input.
    Create(Create),
}

/// The evaluate subcommand: the path of the formula file to evaluate.
#[derive(Debug, PartialEq)]
pub struct Evaluate {
    pub input: String,
}

/// The create subcommand: the path of the formula file to create.
#[derive(Debug, PartialEq)]
pub struct Create {
    pub output: String,
}

/// What one invocation asks the surrounding program to do.
#[derive(Debug, PartialEq)]
pub enum Task {
    /// Read a formula from the user and store it at `output`.
    CreateFromStdin { output: String },
    /// Evaluate the formula file at `input`.
    EvaluateFile { input: String },
}

/// Decides the task an invocation asks for: each subcommand maps to its
/// task, carrying its path through unchanged.
pub fn evaluate(arguments: Arguments) -> (t: Task)
    ensures
        t == (match arguments.subcommand {
            RootSubcommand::Evaluate(e) => Task::EvaluateFile { input: e.input },
            RootSubcommand::Create(c) => Task::CreateFromStdin { output: c.output },
        }),
{
    match arguments.subcommand {
        RootSubcommand::Evaluate(e) => Task::EvaluateFile { input: e.input },
        RootSubcommand::Create(c) => Task::CreateFromStdin { output: c.output },
    }
}

} // verus!

//! How a command ended, and the exit code that says so.

use vstd::prelude::*;

verus! {

/// The exit code of a command that did what it was asked.
pub const SUCCESS: i32 = 0;

/// The exit code for a command line that could not be understood.
pub const GENERAL_ERROR: i32 = 1;

/// The exit code for a command that failed.
pub const COMMAND_ERROR: i32 = 2;

/// The exit code for a command that stopped on merge conflicts.
pub const CONFLICT_ERROR: i32 = 3;

/// How a command ended.
#[derive(Clone, Copy, Debug, PartialEq, Eq, Structural)]
pub enum Outcome {
    /// The command did what it was asked.
    Success,
    /// The command line was not understood, or asked for help only; what
    /// there was to say went to standard error, or to standard output.
    Usage { on_stderr: bool },
    /// The command failed.
    Failed,
    /// A transaction halted, on conflicts or not.
    Halted { conflicts: bool },
    /// A checkout met conflicts that the transaction did not allow.
    CheckoutConflicts,
    /// The command left conflicts behind.
    CausedConflicts,
}

/// The exit code that tells how a command ended.
pub open spec fn code_of(outcome: Outcome) -> i32 {
    match outcome {
        Outcome::Success => SUCCESS,
        Outcome::Usage { on_stderr } => if on_stderr {
            GENERAL_ERROR
        } else {
            SUCCESS
        },
        Outcome::Failed => COMMAND_ERROR,
        Outcome::Halted { .. } => CONFLICT_ERROR,
        Outcome::CheckoutConflicts => CONFLICT_ERROR,
        Outcome::CausedConflicts => CONFLICT_ERROR,
    }
}

/// The exit code that tells how a command ended.
pub fn exit_code(outcome: Outcome) -> (r: i32)
    ensures
        r == code_of(outcome),
{
    match outcome {
        Outcome::Success => SUCCESS,
        Outcome::Usage { on_stderr } => {
            if on_stderr {
                GENERAL_ERROR
            } else {
                SUCCESS
            }
        },
        Outcome::Failed => COMMAND_ERROR,
        Outcome::Halted { .. } => CONFLICT_ERROR,
        Outcome::CheckoutConflicts => CONFLICT_ERROR,
        Outcome::CausedConflicts => CONFLICT_ERROR,
    }
}

/// Whether the files in conflict are listed when the command ends: after
/// a transaction that halted on conflicts.
pub fn lists_conflicts(outcome: Outcome) -> (r: bool)
    ensures
        r == (outcome == Outcome::Halted { conflicts: true }),
{
    match outcome {
        Outcome::Halted { conflicts } => conflicts,
        _ => false,
    }
}

} // verus!

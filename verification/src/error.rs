//! What can go wrong while a stack is navigated, rebased or synchronised.

use vstd::prelude::*;

verus! {

/// The ways in which an operation on a stack ends without having done its
/// work.
#[derive(Clone, Copy, Debug, PartialEq, Eq, Structural)]
pub enum StackError {
    /// A branch that the operation needs does not exist.
    RefNotFound,
    /// There is no branch before the current one to rebase onto.
    NoPreviousBranch,
    /// The current branch is not among the branches of its stack.
    NotInStack,
    /// The current branch is not the temporary branch of a rebase.
    NotInTransaction,
    /// A cherry-pick stopped on conflicting changes and waits for the user.
    CherryPickConflict,
    /// Git ended with a failure that is no conflict, or printed what cannot
    /// be read.
    GatewayCommandFailed,
    /// The temporary branch does not name a branch in the form that this
    /// library writes.
    MalformedTransactionMarker,
    /// A rebase of the same branch is still open.
    TransactionOpen,
}

/// What is told to the user for each error.
pub open spec fn message_text(e: StackError) -> Seq<char> {
    match e {
        StackError::RefNotFound => "a branch that is needed does not exist"@,
        StackError::NoPreviousBranch => "No previous branch to rebase onto"@,
        StackError::NotInStack => "the current branch is not in its stack"@,
        StackError::NotInTransaction => "Expected to be in tmp branch/rebase"@,
        StackError::CherryPickConflict => "the cherry-pick stopped on a conflict: resolve it, then continue or abort the rebase"@,
        StackError::GatewayCommandFailed => "git failed"@,
        StackError::MalformedTransactionMarker => "the temporary branch does not name a branch"@,
        StackError::TransactionOpen => "a rebase of this branch is still open"@,
    }
}

impl StackError {
    /// What is told to the user for this error.
    pub fn message(&self) -> (text: String)
        ensures
            text@ == message_text(*self),
    {
        match self {
            StackError::RefNotFound => "a branch that is needed does not exist".to_owned(),
            StackError::NoPreviousBranch => "No previous branch to rebase onto".to_owned(),
            StackError::NotInStack => "the current branch is not in its stack".to_owned(),
            StackError::NotInTransaction => "Expected to be in tmp branch/rebase".to_owned(),
            StackError::CherryPickConflict => "the cherry-pick stopped on a conflict: resolve it, then continue or abort the rebase".to_owned(),
            StackError::GatewayCommandFailed => "git failed".to_owned(),
            StackError::MalformedTransactionMarker => "the temporary branch does not name a branch".to_owned(),
            StackError::TransactionOpen => "a rebase of this branch is still open".to_owned(),
        }
    }
}

} // verus!

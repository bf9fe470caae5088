//! The classified failures of resolution, group bookkeeping and dispatch.
//! Every error is terminal for the operation that raised it; none is
//! retried inside the library.

use vstd::prelude::*;

verus! {

/// What can go wrong while resolving an identifier, mutating a group or
/// validating a command.
#[derive(Debug)]
pub enum MatahoError {
    /// No device or group matches the identifier.
    NotFound,
    /// Several fuzzy candidates tied at the top score; carries the labels
    /// of all tied candidates in snapshot order.
    AmbiguousMatch(Vec<String>),
    /// A group with that exact name already exists.
    DuplicateName,
    /// The resolved device id is already a member of the group.
    AlreadyMember,
    /// The resolved device id is not a member of the group.
    NotMember,
    /// The requested action is absent from a target device's capability list.
    UnsupportedAction,
    /// The backing store could not be rewritten; carries the underlying text.
    PersistenceError(String),
    /// The remote collaborator failed or answered with a non-success
    /// status; carries the underlying text.
    RemoteError(String),
}

} // verus!

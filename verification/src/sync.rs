use vstd::prelude::*;

verus! {

/// What `sync` should do, given what is on disk.
#[derive(Debug, Clone, Copy, PartialEq, Eq, Structural)]
pub enum SyncPlan {
    /// The todo file path has no final component.
    InvalidPath,
    /// There is no todo file for the current directory yet.
    MissingSource,
    /// The link is already there; warn and change nothing.
    AlreadySynced,
    /// Create the hard link.
    CreateLink,
}

/// Decides `sync`: a path without a file name is invalid; without a source
/// file nothing can be linked; an existing link is left alone with a
/// warning; otherwise the link is created.
pub fn sync_plan(has_file_name: bool, original_exists: bool, link_exists: bool) -> (r: SyncPlan)
    ensures
        !has_file_name ==> r is InvalidPath,
        has_file_name && !original_exists ==> r is MissingSource,
        has_file_name && original_exists && link_exists ==> r is AlreadySynced,
        has_file_name && original_exists && !link_exists ==> r is CreateLink,
{
    if !has_file_name {
        SyncPlan::InvalidPath
    } else if !original_exists {
        SyncPlan::MissingSource
    } else if link_exists {
        SyncPlan::AlreadySynced
    } else {
        SyncPlan::CreateLink
    }
}

/// What `unsync` should do, given what is on disk.
#[derive(Debug, Clone, Copy, PartialEq, Eq, Structural)]
pub enum UnsyncPlan {
    /// The todo file path has no final component.
    InvalidPath,
    /// There is no link; warn and change nothing.
    NotSynced,
    /// Remove the link.
    RemoveLink,
}

/// Decides `unsync`: a path without a file name is invalid; a missing link
/// is left alone with a warning; otherwise the link is removed.
pub fn unsync_plan(has_file_name: bool, link_exists: bool) -> (r: UnsyncPlan)
    ensures
        !has_file_name ==> r is InvalidPath,
        has_file_name && !link_exists ==> r is NotSynced,
        has_file_name && link_exists ==> r is RemoveLink,
{
    if !has_file_name {
        UnsyncPlan::InvalidPath
    } else if !link_exists {
        UnsyncPlan::NotSynced
    } else {
        UnsyncPlan::RemoveLink
    }
}

/// What `delete` should delete.
#[derive(Debug, Clone, Copy, PartialEq, Eq, Structural)]
pub enum DeletePlan {
    /// The whole todo store.
    AllTodos,
    /// This directory's todo files, subdirectories included.
    Recurse,
    /// This directory's single todo file.
    SingleFile,
}

/// Decides `delete` from its flags; `all` wins over `recurse`.
pub fn delete_plan(args: &crate::cli::DeleteArgs) -> (r: DeletePlan)
    ensures
        args.all ==> r is AllTodos,
        !args.all && args.recurse ==> r is Recurse,
        !args.all && !args.recurse ==> r is SingleFile,
{
    if args.all {
        DeletePlan::AllTodos
    } else if args.recurse {
        DeletePlan::Recurse
    } else {
        DeletePlan::SingleFile
    }
}

} // verus!

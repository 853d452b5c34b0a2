//! The delete operation's one decision: how a path is removed.
use vstd::prelude::*;

verus! {

/// What the delete operation does to a path.
pub enum DeleteAction {
    /// Remove the directory and every descendant.
    RemoveDirRecursive,
    /// Remove the single file.
    RemoveFile,
}

/// Decides the removal: a directory goes recursively, anything else as a
/// single file.
pub fn delete_action(is_dir: bool) -> (a: DeleteAction)
    ensures
        a == (if is_dir {
            DeleteAction::RemoveDirRecursive
        } else {
            DeleteAction::RemoveFile
        }),
{
    if is_dir {
        DeleteAction::RemoveDirRecursive
    } else {
        DeleteAction::RemoveFile
    }
}

} // verus!

//! The inline editor of the file tree: what committing, dismissing or
//! cancelling a pending create or rename does. The tree view performs the
//! file-system work and updates its rows as the plan says.

use vstd::prelude::*;
use crate::text::chars_of_string;

verus! {

/// What the inline editor was opened for.
#[derive(Clone, Copy, Debug, PartialEq, Eq, Structural)]
pub enum PendingEditKind {
    CreateNewFile,
    CreateNewFolder,
    RenameExisting,
}

/// The kind of row that a pending edit's identifier points at.
#[derive(Clone, Copy, Debug, PartialEq, Eq, Structural)]
pub enum TreeItemKind {
    File,
    DirectoryHeader,
}

/// What committing the editor's text does.
pub enum CommitPlan {
    /// Nothing: the row is gone, or a rename was left empty.
    Nothing,
    /// Drop the placeholder row of an abandoned create.
    RemovePlaceholder,
    /// Create a file named so in the placeholder's directory; on failure,
    /// drop the placeholder.
    CreateFile { name: String },
    /// Create a folder named so in the placeholder's directory; on failure,
    /// drop the placeholder.
    CreateFolder { name: String },
    /// Rename the row's file or folder to this name.
    Rename { name: String },
}

/// What dismissing the editor does.
#[derive(Clone, Copy, Debug, PartialEq, Eq, Structural)]
pub enum DismissAction {
    Cancel,
    Commit,
}

/// The plan for committing `buffer` to a pending edit of `kind`, whose row
/// is `item` (`None` when its root or row is gone). A create with no name
/// drops its placeholder; a create whose row is not of its kind drops it
/// too; a rename with no name does nothing.
pub fn plan_commit(kind: PendingEditKind, buffer: String, item: Option<TreeItemKind>) -> (r: CommitPlan)
    ensures
        match kind {
            PendingEditKind::CreateNewFile => if buffer@.len() == 0 {
                r is RemovePlaceholder
            } else {
                match item {
                    None => r is Nothing,
                    Some(TreeItemKind::File) => r == CommitPlan::CreateFile { name: buffer },
                    Some(TreeItemKind::DirectoryHeader) => r is RemovePlaceholder,
                }
            },
            PendingEditKind::CreateNewFolder => if buffer@.len() == 0 {
                r is RemovePlaceholder
            } else {
                match item {
                    None => r is Nothing,
                    Some(TreeItemKind::DirectoryHeader) => r == CommitPlan::CreateFolder { name: buffer },
                    Some(TreeItemKind::File) => r is RemovePlaceholder,
                }
            },
            PendingEditKind::RenameExisting => if item is None || buffer@.len() == 0 {
                r is Nothing
            } else {
                r == CommitPlan::Rename { name: buffer }
            },
        },
{
    let empty = chars_of_string(&buffer).len() == 0;
    match kind {
        PendingEditKind::CreateNewFile => {
            if empty {
                return CommitPlan::RemovePlaceholder;
            }
            match item {
                None => CommitPlan::Nothing,
                Some(TreeItemKind::File) => CommitPlan::CreateFile { name: buffer },
                Some(TreeItemKind::DirectoryHeader) => CommitPlan::RemovePlaceholder,
            }
        },
        PendingEditKind::CreateNewFolder => {
            if empty {
                return CommitPlan::RemovePlaceholder;
            }
            match item {
                None => CommitPlan::Nothing,
                Some(TreeItemKind::DirectoryHeader) => CommitPlan::CreateFolder { name: buffer },
                Some(TreeItemKind::File) => CommitPlan::RemovePlaceholder,
            }
        },
        PendingEditKind::RenameExisting => {
            match item {
                None => CommitPlan::Nothing,
                Some(_) => if empty {
                    CommitPlan::Nothing
                } else {
                    CommitPlan::Rename { name: buffer }
                },
            }
        },
    }
}

/// Dismissing the editor cancels it when it is empty and commits it
/// otherwise.
pub fn on_editor_dismissed(buffer: &str) -> (r: DismissAction)
    ensures
        r == (if buffer@.len() == 0 { DismissAction::Cancel } else { DismissAction::Commit }),
{
    if buffer.is_empty() {
        DismissAction::Cancel
    } else {
        DismissAction::Commit
    }
}

/// Whether cancelling an edit of this kind drops a placeholder row: only
/// creates have one.
pub fn cancel_removes_placeholder(kind: PendingEditKind) -> (r: bool)
    ensures
        r == (kind != PendingEditKind::RenameExisting),
{
    match kind {
        PendingEditKind::RenameExisting => false,
        _ => true,
    }
}

} // verus!

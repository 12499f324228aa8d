//! The commands that arranging produces, and what carrying one out means.
//!
//! A command does not touch the file system itself. `exec` names the one
//! operation that the caller is to perform, or the line to show in a dry
//! run.

use vstd::prelude::*;
use vstd::string::*;

verus! {

/// Move a file to a new place.
#[derive(Debug, Clone, PartialEq, Eq)]
pub struct MoveFile {
    pub from: String,
    pub to: String,
}

/// Create a directory, with the directories above it.
#[derive(Debug, Clone, PartialEq, Eq)]
pub struct MkDir {
    pub target: String,
}

/// Remove a directory, provided that it is empty.
#[derive(Debug, Clone, PartialEq, Eq)]
pub struct RmEmptyDir {
    pub target: String,
}

/// What the caller is to do for a command.
#[derive(Debug, Clone, PartialEq, Eq)]
pub enum FileOperation {
    Rename { from: String, to: String },
    CreateDirAll { path: String },
    RemoveDir { path: String },
    /// Show the line; change nothing.
    Report { line: String },
    /// Do nothing.
    Nothing,
}

/// A `FileOperation` with its texts as sequences.
pub enum OperationView {
    Rename { from: Seq<char>, to: Seq<char> },
    CreateDirAll { path: Seq<char> },
    RemoveDir { path: Seq<char> },
    Report { line: Seq<char> },
    Nothing,
}

impl OperationView {
    /// Whether performing the operation changes the file system.
    pub open spec fn changes_files(self) -> bool {
        !(self is Report) && !(self is Nothing)
    }
}

impl View for FileOperation {
    type V = OperationView;

    open spec fn view(&self) -> OperationView {
        match *self {
            FileOperation::Rename { from, to } => OperationView::Rename { from: from@, to: to@ },
            FileOperation::CreateDirAll { path } => OperationView::CreateDirAll { path: path@ },
            FileOperation::RemoveDir { path } => OperationView::RemoveDir { path: path@ },
            FileOperation::Report { line } => OperationView::Report { line: line@ },
            FileOperation::Nothing => OperationView::Nothing,
        }
    }
}

/// The line that a dry run shows for a move.
pub open spec fn move_line(from: Seq<char>, to: Seq<char>) -> Seq<char> {
    from + seq![' ', '➙', ' '] + to
}

/// The line that a dry run shows for a new directory.
pub open spec fn mkdir_line(target: Seq<char>) -> Seq<char> {
    "create new directory: "@ + target
}

pub trait IOCommand {
    /// The operation that the command stands for in the given mode.
    spec fn effect(&self, dry_run: bool) -> OperationView;

    /// Names the operation to perform. In a dry run no command ever asks
    /// for a change of the file system.
    fn exec(&self, dry_run: bool) -> (r: FileOperation)
        ensures
            r@ == self.effect(dry_run),
            dry_run ==> !r@.changes_files(),
    ;
}

impl IOCommand for MoveFile {
    open spec fn effect(&self, dry_run: bool) -> OperationView {
        if dry_run {
            OperationView::Report { line: move_line(self.from@, self.to@) }
        } else {
            OperationView::Rename { from: self.from@, to: self.to@ }
        }
    }

    fn exec(&self, dry_run: bool) -> (r: FileOperation) {
        if dry_run {
            proof {
                reveal_strlit(" ➙ ");
                assert(" ➙ "@ =~= seq![' ', '➙', ' ']);
            }
            let mut line = self.from.clone();
            line.append(" ➙ ");
            line.append(self.to.as_str());
            FileOperation::Report { line }
        } else {
            FileOperation::Rename { from: self.from.clone(), to: self.to.clone() }
        }
    }
}

impl IOCommand for MkDir {
    open spec fn effect(&self, dry_run: bool) -> OperationView {
        if dry_run {
            OperationView::Report { line: mkdir_line(self.target@) }
        } else {
            OperationView::CreateDirAll { path: self.target@ }
        }
    }

    fn exec(&self, dry_run: bool) -> (r: FileOperation) {
        if dry_run {
            let mut line = String::from_str("create new directory: ");
            line.append(self.target.as_str());
            FileOperation::Report { line }
        } else {
            FileOperation::CreateDirAll { path: self.target.clone() }
        }
    }
}

impl IOCommand for RmEmptyDir {
    open spec fn effect(&self, dry_run: bool) -> OperationView {
        if dry_run {
            OperationView::Nothing
        } else {
            OperationView::RemoveDir { path: self.target@ }
        }
    }

    fn exec(&self, dry_run: bool) -> (r: FileOperation) {
        if !dry_run {
            FileOperation::RemoveDir { path: self.target.clone() }
        } else {
            FileOperation::Nothing
        }
    }
}

} // verus!

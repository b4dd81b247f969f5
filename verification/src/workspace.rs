//! The workspace that the viewer opens: a Markdown file or a directory, and
//! the errors met while finding it. Paths are held as text.

use vstd::prelude::*;

use crate::text::push_str;

verus! {

/// What the viewer opens: one file, or a directory of Markdown files.
#[derive(Debug, PartialEq, Eq)]
pub enum WorkspaceTarget {
    File(String),
    Directory(String),
}

impl WorkspaceTarget {
    /// The path of the file or directory.
    pub fn path(&self) -> (path: &str)
        ensures
            path@ == match self {
                WorkspaceTarget::File(p) => p@,
                WorkspaceTarget::Directory(p) => p@,
            },
    {
        match self {
            WorkspaceTarget::File(path) => path.as_str(),
            WorkspaceTarget::Directory(path) => path.as_str(),
        }
    }
}

/// Why the workspace could not be opened.
#[derive(Debug, PartialEq, Eq)]
pub enum WorkspaceError {
    /// Nothing exists at the path.
    NotFound(String),
    /// The path is neither a regular file nor a directory.
    Unsupported(String),
    /// The path could not be inspected; `message` says why.
    Io { path: String, message: String },
}

/// What the file system says a path is.
#[derive(Clone, Copy, Debug, PartialEq, Eq, Structural)]
pub enum PathKind {
    File,
    Directory,
    Other,
}

/// Why the file system could not describe a path.
#[derive(Debug, PartialEq, Eq)]
pub enum InspectionFailure {
    /// Nothing exists at the path.
    Missing,
    /// Another failure, with its message.
    Failed(String),
}

/// The error for a path that could not be inspected: not found when nothing
/// is there, an I/O error with the failure's message otherwise.
pub fn inspection_error(path: String, failure: InspectionFailure) -> (error: WorkspaceError)
    ensures
        failure is Missing ==> (error matches WorkspaceError::NotFound(p) && p@ == path@),
        failure matches InspectionFailure::Failed(m) ==> (error matches WorkspaceError::Io { path: p, message }
            && p@ == path@ && message@ == m@),
{
    match failure {
        InspectionFailure::Missing => WorkspaceError::NotFound(path),
        InspectionFailure::Failed(message) => WorkspaceError::Io { path, message },
    }
}

/// The workspace at `path`, which is of `kind` and whose canonical form is
/// `canonical` (or whose canonicalization failed with that message): a file
/// or a directory at its canonical path; anything else is unsupported.
pub fn classify(path: String, kind: PathKind, canonical: Result<String, String>) -> (target: Result<WorkspaceTarget, WorkspaceError>)
    ensures
        canonical matches Err(m) ==> (target matches Err(WorkspaceError::Io { path: p, message }) && p@ == path@
            && message@ == m@),
        canonical matches Ok(c) ==> match kind {
            PathKind::File => (target matches Ok(WorkspaceTarget::File(p)) && p@ == c@),
            PathKind::Directory => (target matches Ok(WorkspaceTarget::Directory(p)) && p@ == c@),
            PathKind::Other => (target matches Err(WorkspaceError::Unsupported(p)) && p@ == c@),
        },
{
    let canonical_path = match canonical {
        Err(message) => {
            return Err(WorkspaceError::Io { path, message });
        },
        Ok(c) => c,
    };
    match kind {
        PathKind::File => Ok(WorkspaceTarget::File(canonical_path)),
        PathKind::Directory => Ok(WorkspaceTarget::Directory(canonical_path)),
        PathKind::Other => Err(WorkspaceError::Unsupported(canonical_path)),
    }
}

impl WorkspaceError {
    /// The text that reports the error.
    pub open spec fn text(&self) -> Seq<char> {
        match self {
            WorkspaceError::NotFound(p) => "path does not exist: "@ + p@,
            WorkspaceError::Unsupported(p) => "path is neither a regular file nor a directory: "@ + p@,
            WorkspaceError::Io { path, message } => "could not inspect "@ + path@ + ": "@ + message@,
        }
    }

    /// The text that reports the error.
    pub fn message(&self) -> (text: String)
        ensures
            text@ == self.text(),
    {
        let mut text = String::new();
        match self {
            WorkspaceError::NotFound(path) => {
                push_str(&mut text, "path does not exist: ");
                push_str(&mut text, path.as_str());
            },
            WorkspaceError::Unsupported(path) => {
                push_str(&mut text, "path is neither a regular file nor a directory: ");
                push_str(&mut text, path.as_str());
            },
            WorkspaceError::Io { path, message } => {
                push_str(&mut text, "could not inspect ");
                push_str(&mut text, path.as_str());
                push_str(&mut text, ": ");
                push_str(&mut text, message.as_str());
            },
        }
        text
    }
}

/// A node of the workspace's file tree: a directory, a Markdown page that
/// has pages below it, or a file. Only Markdown files count as files.
#[derive(Debug, PartialEq, Eq)]
pub enum FileTreeNode {
    Directory { name: String, children: Vec<FileTreeNode> },
    Page { name: String, children: Vec<FileTreeNode> },
    File { name: String },
}

/// The number of files (pages included) among `nodes` and below them.
pub open spec fn files_in(nodes: Seq<FileTreeNode>) -> nat
    decreases nodes,
{
    if nodes.len() == 0 {
        0
    } else {
        files_in(nodes.drop_last()) + node_files(nodes[nodes.len() - 1])
    }
}

/// The number of files in the tree below `node`, itself included.
pub open spec fn node_files(node: FileTreeNode) -> nat
    decreases node,
{
    match node {
        FileTreeNode::Directory { children, .. } => files_in(children@),
        FileTreeNode::Page { children, .. } => 1 + files_in(children@),
        FileTreeNode::File { .. } => 1,
    }
}

} // verus!

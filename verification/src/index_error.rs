//! What can go wrong in the index.
use crate::text::{decimal, push_decimal};
use vstd::prelude::*;
use vstd::string::StringExecFns;

verus! {

#[derive(Debug, Clone)]
#[allow(inconsistent_fields)]
pub enum IndexError {
    Sqlite(String),
    WorkspaceAlreadyExists(String),
    WorkspaceNotFound(String),
    InvalidNodeKind(String),
    InvalidPath(String),
    ParentNotFound(String),
    AlreadyExistsAtPath { path: String },
    NodeIdNotFound { workspace_id: String, node_id: String },
    NotDirectory(String),
    DirectoryNotEmpty(String),
    InvalidCursor,
    NodeNotFound { workspace_id: String, path: String },
    NumericConversion,
    EmbeddingCountMismatch { expected: usize, actual: usize },
    InvalidHandleMode(String),
    InvalidIndexingJobStatus(String),
    ConnectionPoolPoisoned(String),
    ConnectionPoolExhausted,
    RedirectLimitExceeded { workspace_id: String, node_id: String, max_hops: usize },
    RedirectLoop { workspace_id: String, node_id: String },
    VersionConflict { expected: u64, found: u64 },
    ContentNotInIndex,
    InvalidInput(String),
}

/// The same errors over sequences of characters.
#[verifier::ext_equal]
pub enum ErrorView {
    Sqlite(Seq<char>),
    WorkspaceAlreadyExists(Seq<char>),
    WorkspaceNotFound(Seq<char>),
    InvalidNodeKind(Seq<char>),
    InvalidPath(Seq<char>),
    ParentNotFound(Seq<char>),
    AlreadyExistsAtPath { path: Seq<char> },
    NodeIdNotFound { workspace_id: Seq<char>, node_id: Seq<char> },
    NotDirectory(Seq<char>),
    DirectoryNotEmpty(Seq<char>),
    InvalidCursor,
    NodeNotFound { workspace_id: Seq<char>, path: Seq<char> },
    NumericConversion,
    EmbeddingCountMismatch { expected: nat, actual: nat },
    InvalidHandleMode(Seq<char>),
    InvalidIndexingJobStatus(Seq<char>),
    ConnectionPoolPoisoned(Seq<char>),
    ConnectionPoolExhausted,
    RedirectLimitExceeded { workspace_id: Seq<char>, node_id: Seq<char>, max_hops: nat },
    RedirectLoop { workspace_id: Seq<char>, node_id: Seq<char> },
    VersionConflict { expected: nat, found: nat },
    ContentNotInIndex,
    InvalidInput(Seq<char>),
}

impl View for IndexError {
    type V = ErrorView;

    open spec fn view(&self) -> ErrorView {
        match *self {
            IndexError::Sqlite(m) => ErrorView::Sqlite(m@),
            IndexError::WorkspaceAlreadyExists(w) => ErrorView::WorkspaceAlreadyExists(w@),
            IndexError::WorkspaceNotFound(w) => ErrorView::WorkspaceNotFound(w@),
            IndexError::InvalidNodeKind(k) => ErrorView::InvalidNodeKind(k@),
            IndexError::InvalidPath(p) => ErrorView::InvalidPath(p@),
            IndexError::ParentNotFound(p) => ErrorView::ParentNotFound(p@),
            IndexError::AlreadyExistsAtPath { path } => ErrorView::AlreadyExistsAtPath {
                path: path@,
            },
            IndexError::NodeIdNotFound { workspace_id, node_id } => ErrorView::NodeIdNotFound {
                workspace_id: workspace_id@,
                node_id: node_id@,
            },
            IndexError::NotDirectory(n) => ErrorView::NotDirectory(n@),
            IndexError::DirectoryNotEmpty(n) => ErrorView::DirectoryNotEmpty(n@),
            IndexError::InvalidCursor => ErrorView::InvalidCursor,
            IndexError::NodeNotFound { workspace_id, path } => ErrorView::NodeNotFound {
                workspace_id: workspace_id@,
                path: path@,
            },
            IndexError::NumericConversion => ErrorView::NumericConversion,
            IndexError::EmbeddingCountMismatch { expected, actual } =>
                ErrorView::EmbeddingCountMismatch {
                expected: expected as nat,
                actual: actual as nat,
            },
            IndexError::InvalidHandleMode(m) => ErrorView::InvalidHandleMode(m@),
            IndexError::InvalidIndexingJobStatus(s) => ErrorView::InvalidIndexingJobStatus(s@),
            IndexError::ConnectionPoolPoisoned(m) => ErrorView::ConnectionPoolPoisoned(m@),
            IndexError::ConnectionPoolExhausted => ErrorView::ConnectionPoolExhausted,
            IndexError::RedirectLimitExceeded { workspace_id, node_id, max_hops } =>
                ErrorView::RedirectLimitExceeded {
                workspace_id: workspace_id@,
                node_id: node_id@,
                max_hops: max_hops as nat,
            },
            IndexError::RedirectLoop { workspace_id, node_id } => ErrorView::RedirectLoop {
                workspace_id: workspace_id@,
                node_id: node_id@,
            },
            IndexError::VersionConflict { expected, found } => ErrorView::VersionConflict {
                expected: expected as nat,
                found: found as nat,
            },
            IndexError::ContentNotInIndex => ErrorView::ContentNotInIndex,
            IndexError::InvalidInput(m) => ErrorView::InvalidInput(m@),
        }
    }
}

/// `r` is the result that `want` describes.
pub open spec fn agrees<T: View>(r: Result<T, IndexError>, want: Result<T::V, ErrorView>) -> bool {
    match r {
        Ok(x) => want == Ok::<T::V, ErrorView>(x@),
        Err(e) => want == Err::<T::V, ErrorView>(e@),
    }
}

impl ErrorView {
    /// The sentence that an error is reported with.
    pub open spec fn message(self) -> Seq<char> {
        match self {
            ErrorView::Sqlite(m) => "sqlite error: "@ + m,
            ErrorView::WorkspaceAlreadyExists(w) => "workspace already exists: "@ + w,
            ErrorView::WorkspaceNotFound(w) => "workspace not found: "@ + w,
            ErrorView::InvalidNodeKind(k) => "invalid node kind in index: "@ + k,
            ErrorView::InvalidPath(p) => "invalid node path: "@ + p,
            ErrorView::ParentNotFound(p) => "parent node not found: "@ + p,
            ErrorView::AlreadyExistsAtPath { path } => "node already exists at path "@ + path,
            ErrorView::NodeIdNotFound { workspace_id, node_id } =>
                "node id not found in workspace="@ + workspace_id + ", node_id="@ + node_id,
            ErrorView::NotDirectory(n) => "node is not a directory: "@ + n,
            ErrorView::DirectoryNotEmpty(n) => "node is not empty directory: "@ + n,
            ErrorView::InvalidCursor => "invalid cursor"@,
            ErrorView::NodeNotFound { workspace_id, path } => "node not found for workspace="@
                + workspace_id + ", path="@ + path,
            ErrorView::NumericConversion => "numeric conversion failed for database value"@,
            ErrorView::EmbeddingCountMismatch { expected, actual } =>
                "embedding vector count mismatch: expected="@ + decimal(expected) + ", actual="@
                + decimal(actual),
            ErrorView::InvalidHandleMode(m) => "invalid handle mode: "@ + m,
            ErrorView::InvalidIndexingJobStatus(s) => "invalid indexing job status: "@ + s,
            ErrorView::ConnectionPoolPoisoned(m) => "sqlite connection pool poisoned: "@ + m,
            ErrorView::ConnectionPoolExhausted => "sqlite connection pool exhausted"@,
            ErrorView::RedirectLimitExceeded { workspace_id, node_id, max_hops } =>
                "redirect chain exceeded max hops ("@ + decimal(max_hops) + ") for workspace="@
                + workspace_id + ", node_id="@ + node_id,
            ErrorView::RedirectLoop { workspace_id, node_id } =>
                "redirect cycle detected for workspace="@ + workspace_id + ", node_id="@ + node_id,
            ErrorView::VersionConflict { expected, found } =>
                "version precondition failed: expected "@ + decimal(expected) + ", found "@
                + decimal(found),
            ErrorView::ContentNotInIndex =>
                "file content is stored in the workspace content store, not in the index database"@,
            ErrorView::InvalidInput(m) => "invalid input: "@ + m,
        }
    }
}

fn labelled(label: &str, value: &str) -> (r: String)
    ensures
        r@ == label@ + value@,
{
    crate::text::join2(label, value)
}

fn labelled_pair(first: &str, a: &str, second: &str, b: &str) -> (r: String)
    ensures
        r@ == first@ + a@ + second@ + b@,
{
    let mut r = first.to_owned();
    r.append(a);
    r.append(second);
    r.append(b);
    r
}

fn labelled_numbers(first: &str, a: u64, second: &str, b: u64) -> (r: String)
    ensures
        r@ == first@ + decimal(a as nat) + second@ + decimal(b as nat),
{
    let mut r = first.to_owned();
    push_decimal(&mut r, a);
    r.append(second);
    push_decimal(&mut r, b);
    r
}

impl IndexError {
    /// The sentence that the error is reported with.
    pub fn message(&self) -> (r: String)
        ensures
            r@ == self@.message(),
    {
        match self {
            IndexError::Sqlite(m) => labelled("sqlite error: ", m),
            IndexError::WorkspaceAlreadyExists(w) => labelled("workspace already exists: ", w),
            IndexError::WorkspaceNotFound(w) => labelled("workspace not found: ", w),
            IndexError::InvalidNodeKind(k) => labelled("invalid node kind in index: ", k),
            IndexError::InvalidPath(p) => labelled("invalid node path: ", p),
            IndexError::ParentNotFound(p) => labelled("parent node not found: ", p),
            IndexError::AlreadyExistsAtPath { path } => labelled(
                "node already exists at path ",
                path,
            ),
            IndexError::NodeIdNotFound { workspace_id, node_id } => labelled_pair(
                "node id not found in workspace=",
                workspace_id,
                ", node_id=",
                node_id,
            ),
            IndexError::NotDirectory(n) => labelled("node is not a directory: ", n),
            IndexError::DirectoryNotEmpty(n) => labelled("node is not empty directory: ", n),
            IndexError::InvalidCursor => "invalid cursor".to_owned(),
            IndexError::NodeNotFound { workspace_id, path } => labelled_pair(
                "node not found for workspace=",
                workspace_id,
                ", path=",
                path,
            ),
            IndexError::NumericConversion =>
                "numeric conversion failed for database value".to_owned(),
            IndexError::EmbeddingCountMismatch { expected, actual } => labelled_numbers(
                "embedding vector count mismatch: expected=",
                *expected as u64,
                ", actual=",
                *actual as u64,
            ),
            IndexError::InvalidHandleMode(m) => labelled("invalid handle mode: ", m),
            IndexError::InvalidIndexingJobStatus(s) => labelled("invalid indexing job status: ", s),
            IndexError::ConnectionPoolPoisoned(m) => labelled(
                "sqlite connection pool poisoned: ",
                m,
            ),
            IndexError::ConnectionPoolExhausted => "sqlite connection pool exhausted".to_owned(),
            IndexError::RedirectLimitExceeded { workspace_id, node_id, max_hops } => {
                let mut r = "redirect chain exceeded max hops (".to_owned();
                push_decimal(&mut r, *max_hops as u64);
                r.append(") for workspace=");
                r.append(workspace_id);
                r.append(", node_id=");
                r.append(node_id);
                r
            },
            IndexError::RedirectLoop { workspace_id, node_id } => labelled_pair(
                "redirect cycle detected for workspace=",
                workspace_id,
                ", node_id=",
                node_id,
            ),
            IndexError::VersionConflict { expected, found } => labelled_numbers(
                "version precondition failed: expected ",
                *expected,
                ", found ",
                *found,
            ),
            IndexError::ContentNotInIndex =>
                "file content is stored in the workspace content store, not in the index database".to_owned(),
            IndexError::InvalidInput(m) => labelled("invalid input: ", m),
        }
    }
}

/// Every error has a sentence of its own, with what it is about.
pub proof fn lemma_sentences_of_errors(
    m: Seq<char>,
    path: Seq<char>,
    workspace_id: Seq<char>,
    node_id: Seq<char>,
    expected: nat,
    actual: nat,
    found: nat,
    max_hops: nat,
)
    ensures
        ErrorView::Sqlite(m).message() == "sqlite error: "@ + m,
        ErrorView::WorkspaceAlreadyExists(m).message() == "workspace already exists: "@ + m,
        ErrorView::WorkspaceNotFound(m).message() == "workspace not found: "@ + m,
        ErrorView::InvalidNodeKind(m).message() == "invalid node kind in index: "@ + m,
        ErrorView::InvalidPath(m).message() == "invalid node path: "@ + m,
        ErrorView::ParentNotFound(m).message() == "parent node not found: "@ + m,
        (ErrorView::AlreadyExistsAtPath { path }).message()
            == "node already exists at path "@ + path,
        (ErrorView::NodeIdNotFound { workspace_id, node_id }).message()
            == "node id not found in workspace="@ + workspace_id + ", node_id="@ + node_id,
        ErrorView::NotDirectory(m).message() == "node is not a directory: "@ + m,
        ErrorView::DirectoryNotEmpty(m).message() == "node is not empty directory: "@ + m,
        ErrorView::InvalidCursor.message() == "invalid cursor"@,
        (ErrorView::NodeNotFound { workspace_id, path }).message()
            == "node not found for workspace="@ + workspace_id + ", path="@ + path,
        ErrorView::NumericConversion.message() == "numeric conversion failed for database value"@,
        (ErrorView::EmbeddingCountMismatch { expected, actual }).message()
            == "embedding vector count mismatch: expected="@ + decimal(expected) + ", actual="@ + decimal(actual),
        ErrorView::InvalidHandleMode(m).message() == "invalid handle mode: "@ + m,
        ErrorView::InvalidIndexingJobStatus(m).message() == "invalid indexing job status: "@ + m,
        ErrorView::ConnectionPoolPoisoned(m).message() == "sqlite connection pool poisoned: "@ + m,
        ErrorView::ConnectionPoolExhausted.message() == "sqlite connection pool exhausted"@,
        (ErrorView::RedirectLimitExceeded { workspace_id, node_id, max_hops }).message()
            == "redirect chain exceeded max hops ("@ + decimal(max_hops) + ") for workspace="@ + workspace_id
            + ", node_id="@ + node_id,
        (ErrorView::RedirectLoop { workspace_id, node_id }).message()
            == "redirect cycle detected for workspace="@ + workspace_id + ", node_id="@ + node_id,
        (ErrorView::VersionConflict { expected, found }).message()
            == "version precondition failed: expected "@ + decimal(expected) + ", found "@ + decimal(found),
        ErrorView::ContentNotInIndex.message()
            == "file content is stored in the workspace content store, not in the index database"@,
        ErrorView::InvalidInput(m).message() == "invalid input: "@ + m,
{
}

} // verus!
